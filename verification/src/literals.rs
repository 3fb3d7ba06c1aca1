//! String literals read back: the pieces of a string literal, written out as
//! text, fall into the same pieces, and the quote that closed the literal
//! closes the text.

use vstd::prelude::*;
use crate::lexer::{
    brace_end,
    closes,
    interpolation_at,
    is_currency_prefix,
    literal_piece,
    quotes_for,
    segments_from,
    segments_of,
    string_end,
    LexError,
};
use crate::syntax::{segment_text, segments_text};
use crate::token::StringSegmentView;

verus! {

/// The text that the pieces of the content `s` from `pos` on are written as:
/// the content itself, with every variable written as `${name}`.
pub open spec fn written(s: Seq<char>, pos: int) -> Seq<char>
    decreases s.len() - pos,
    via written_decreases
{
    if pos < 0 || pos >= s.len() {
        Seq::empty()
    } else if s[pos] == '\\' {
        if pos + 1 >= s.len() {
            seq!['\\']
        } else {
            seq!['\\', s[pos + 1]] + written(s, pos + 2)
        }
    } else {
        match interpolation_at(s, pos) {
            Some((start, close, next)) => seq!['$', '{'] + s.subrange(start, close) + seq!['}']
                + written(s, next),
            None => seq![s[pos]] + written(s, pos + 1),
        }
    }
}

/// A variable ends behind where it starts, within the content.
#[via_fn]
proof fn written_decreases(s: Seq<char>, pos: int) {
    if 0 <= pos < s.len() {
        lemma_brace_end(s, pos + 1);
        if pos + 2 <= s.len() {
            lemma_brace_end(s, pos + 2);
        }
    }
}

/// Whether a text holds no `}`.
pub open spec fn no_brace(s: Seq<char>) -> bool {
    forall|i: int| 0 <= i < s.len() ==> s[i] != '}'
}

/// The first `}` from an index on has none before it.
pub proof fn lemma_brace_end(s: Seq<char>, i: int)
    requires
        0 <= i <= s.len(),
    ensures
        i <= brace_end(s, i) <= s.len(),
        forall|j: int| i <= j < brace_end(s, i) ==> s[j] != '}',
        brace_end(s, i) < s.len() ==> s[brace_end(s, i)] == '}',
    decreases s.len() - i,
{
    if i < s.len() && s[i] != '}' {
        lemma_brace_end(s, i + 1);
    }
}

/// The first `}` from `i` on is where one stands with none before it.
pub proof fn lemma_brace_at(s: Seq<char>, i: int, k: int)
    requires
        0 <= i <= k <= s.len(),
        forall|j: int| i <= j < k ==> s[j] != '}',
        k < s.len() ==> s[k] == '}',
    ensures
        brace_end(s, i) == k,
    decreases k - i,
{
    if i < k {
        lemma_brace_at(s, i + 1, k);
    }
}

/// What a variable in a content is made of.
pub proof fn lemma_interpolation(s: Seq<char>, pos: int)
    requires
        interpolation_at(s, pos) is Some,
    ensures
        ({
            let (start, close, next) = interpolation_at(s, pos)->Some_0;
            &&& 0 <= pos < start <= close < next <= s.len()
            &&& s[start - 1] == '{'
            &&& s[close] == '}'
            &&& no_brace(s.subrange(start, close))
            &&& brace_end(s, pos) == close
            &&& (next == close + 1 || (next == close + 2 && s[close + 1] == '€'))
            &&& s[pos] != '}'
        }),
{
    let (start, close, next) = interpolation_at(s, pos)->Some_0;
    lemma_brace_end(s, pos + 1);
    if pos + 2 <= s.len() {
        lemma_brace_end(s, pos + 2);
    }
    assert forall|i: int| 0 <= i < close - start implies s.subrange(start, close)[i] != '}' by {
        assert(s.subrange(start, close)[i] == s[start + i]);
    }
    lemma_brace_at(s, pos, close);
}

/// The text of two lists of pieces in a row is their texts in a row.
proof fn lemma_segments_text_concat(a: Seq<StringSegmentView>, b: Seq<StringSegmentView>)
    ensures
        segments_text(a + b) == segments_text(a) + segments_text(b),
    decreases b.len(),
{
    if b.len() == 0 {
        assert(a + b =~= a);
        assert(segments_text(a) + segments_text(b) =~= segments_text(a));
    } else {
        lemma_segments_text_concat(a, b.drop_last());
        assert((a + b).drop_last() =~= a + b.drop_last());
        assert((a + b).last() == b.last());
        assert(segments_text(a + b) =~= segments_text(a) + segments_text(b));
    }
}

/// The text of a list of one piece is the text of the piece.
proof fn lemma_segments_text_one(x: StringSegmentView)
    ensures
        segments_text(seq![x]) == segment_text(x),
{
    let e = seq![x].drop_last();
    assert(e.len() == 0);
    assert(segments_text(e) =~= Seq::<char>::empty());
    assert(seq![x].last() == x);
    assert(segments_text(seq![x]) =~= segment_text(x));
}

/// The text of a literal piece is the literal text.
proof fn lemma_literal_text(s: Seq<char>, from: int, to: int)
    requires
        0 <= from <= to <= s.len(),
    ensures
        segments_text(literal_piece(s, from, to)) == s.subrange(from, to),
{
    if from < to {
        lemma_segments_text_one(StringSegmentView::String(s.subrange(from, to)));
    } else {
        assert(s.subrange(from, to) =~= Seq::empty());
    }
}

/// The pieces of a content from `pos` on, with the literal text since `from`,
/// are written as that literal text followed by what the rest is written as.
pub proof fn lemma_written(s: Seq<char>, pos: int, from: int)
    requires
        0 <= from <= pos <= s.len(),
    ensures
        segments_text(segments_from(s, pos, from)) == s.subrange(from, pos) + written(s, pos),
    decreases s.len() - pos,
{
    let n = s.len() as int;
    if pos >= n {
        lemma_literal_text(s, from, n);
        assert(s.subrange(from, pos) + written(s, pos) =~= s.subrange(from, n));
    } else if s[pos] == '\\' {
        if pos + 1 >= n {
            lemma_literal_text(s, from, n);
            assert(s.subrange(from, pos) + written(s, pos) =~= s.subrange(from, n));
        } else {
            lemma_written(s, pos + 2, from);
            assert(s.subrange(from, pos) + written(s, pos) =~= s.subrange(from, pos + 2)
                + written(s, pos + 2));
        }
    } else {
        match interpolation_at(s, pos) {
            Some((start, close, next)) => {
                lemma_interpolation(s, pos);
                let name = s.subrange(start, close);
                let ident = seq![StringSegmentView::Ident(name)];
                lemma_written(s, next, next);
                lemma_literal_text(s, from, pos);
                lemma_segments_text_one(StringSegmentView::Ident(name));
                lemma_segments_text_concat(literal_piece(s, from, pos), ident);
                lemma_segments_text_concat(
                    literal_piece(s, from, pos) + ident,
                    segments_from(s, next, next),
                );
                assert(s.subrange(next, next) =~= Seq::empty());
                assert(segments_text(segments_from(s, pos, from)) =~= s.subrange(from, pos)
                    + written(s, pos));
            },
            None => {
                lemma_written(s, pos + 1, from);
                assert(s.subrange(from, pos) + written(s, pos) =~= s.subrange(from, pos + 1)
                    + written(s, pos + 1));
            },
        }
    }
}

/// What a content is written as starts with `$` where a variable starts the
/// content, and with the first character of the content otherwise.
pub proof fn lemma_written_first(s: Seq<char>, pos: int)
    requires
        0 <= pos < s.len(),
    ensures
        written(s, pos).len() > 0,
        written(s, pos)[0] == if s[pos] != '\\' && interpolation_at(s, pos) is Some {
            '$'
        } else {
            s[pos]
        },
{
    if s[pos] != '\\' && interpolation_at(s, pos) is Some {
        lemma_interpolation(s, pos);
    }
}

/// Where a content has a `}` from `pos` on, what it is written as has its
/// first `}` followed by what the content after that `}` is written as; the
/// currency suffix is left out where it followed. Where the content has
/// none, it is written as it is.
pub proof fn lemma_first_brace(s: Seq<char>, pos: int)
    requires
        0 <= pos <= s.len(),
    ensures
        ({
            let c = brace_end(s, pos);
            let t = written(s, pos);
            let k = brace_end(t, 0);
            &&& 0 <= k <= t.len()
            &&& c >= s.len() ==> k == t.len()
            &&& c < s.len() ==> k < t.len() && (t.subrange(k + 1, t.len() as int) == written(
                s,
                c + 1,
            ) || (c + 1 < s.len() && s[c + 1] == '€' && t.subrange(k + 1, t.len() as int)
                == written(s, c + 2)))
        }),
    decreases s.len() - pos,
{
    let n = s.len() as int;
    let c = brace_end(s, pos);
    let t = written(s, pos);
    lemma_brace_end(s, pos);
    lemma_brace_end(t, 0);
    if pos >= n {
    } else if s[pos] == '\\' {
        if pos + 1 >= n {
            lemma_brace_at(t, 0, 1);
        } else {
            let rest = written(s, pos + 2);
            let head = seq!['\\', s[pos + 1]];
            assert(t == head + rest);
            if s[pos + 1] == '}' {
                lemma_brace_at(t, 0, 1);
                lemma_brace_at(s, pos, pos + 1);
                assert(t.subrange(2, t.len() as int) =~= rest);
            } else {
                lemma_first_brace(s, pos + 2);
                lemma_brace_end(s, pos + 2);
                lemma_brace_at(s, pos, brace_end(s, pos + 2));
                lemma_brace_end(rest, 0);
                let k2 = brace_end(rest, 0);
                assert forall|j: int| 0 <= j < 2 + k2 implies t[j] != '}' by {
                    if j >= 2 {
                        assert(t[j] == rest[j - 2]);
                    }
                }
                if k2 < rest.len() {
                    assert(t[2 + k2] == rest[k2]);
                    assert(t.subrange(2 + k2 + 1, t.len() as int) =~= rest.subrange(
                        k2 + 1,
                        rest.len() as int,
                    ));
                }
                lemma_brace_at(t, 0, 2 + k2);
            }
        }
    } else {
        match interpolation_at(s, pos) {
            Some((start, close, next)) => {
                lemma_interpolation(s, pos);
                let name = s.subrange(start, close);
                let rest = written(s, next);
                let head = seq!['$', '{'] + name + seq!['}'];
                assert(t == head + rest);
                let k = 2 + name.len() as int;
                assert forall|j: int| 0 <= j < k implies t[j] != '}' by {
                    if j >= 2 {
                        assert(t[j] == name[j - 2]);
                    }
                }
                assert(t[k] == '}');
                lemma_brace_at(t, 0, k);
                assert(t.subrange(k + 1, t.len() as int) =~= rest);
            },
            None => {
                let rest = written(s, pos + 1);
                assert(t == seq![s[pos]] + rest);
                if s[pos] == '}' {
                    lemma_brace_at(t, 0, 0);
                    assert(t.subrange(1, t.len() as int) =~= rest);
                } else {
                    lemma_first_brace(s, pos + 1);
                    lemma_brace_end(s, pos + 1);
                    lemma_brace_end(rest, 0);
                    let k2 = brace_end(rest, 0);
                    assert forall|j: int| 0 <= j < 1 + k2 implies t[j] != '}' by {
                        if j >= 1 {
                            assert(t[j] == rest[j - 1]);
                        }
                    }
                    if k2 < rest.len() {
                        assert(t[1 + k2] == rest[k2]);
                        assert(t.subrange(1 + k2 + 1, t.len() as int) =~= rest.subrange(
                            k2 + 1,
                            rest.len() as int,
                        ));
                    }
                    lemma_brace_at(t, 0, 1 + k2);
                }
            },
        }
    }
}

/// The first `}` behind a text put in front.
proof fn lemma_brace_shift(a: Seq<char>, b: Seq<char>, i: int)
    requires
        0 <= i <= b.len(),
    ensures
        brace_end(a + b, a.len() + i) == a.len() + brace_end(b, i),
    decreases b.len() - i,
{
    if i < b.len() {
        assert((a + b)[a.len() + i] == b[i]);
        if b[i] != '}' {
            lemma_brace_shift(a, b, i + 1);
        }
    }
}

/// A character of a content that starts no variable starts none in what the
/// content is written as.
proof fn lemma_no_interpolation(s: Seq<char>, pos: int, front: Seq<char>)
    requires
        0 <= pos < s.len(),
        s[pos] != '\\',
        interpolation_at(s, pos) is None,
    ensures
        interpolation_at(front + written(s, pos), front.len() as int) is None,
{
    let n = s.len() as int;
    let c = s[pos];
    let t1 = written(s, pos + 1);
    let t = written(s, pos);
    assert(t == seq![c] + t1);
    let x = front + t;
    let q = front.len() as int;
    assert(x[q] == c);
    let a = front + seq![c];
    assert(x =~= a + t1);
    if is_currency_prefix(c) && q + 1 < x.len() && x[q + 1] == '{' {
        assert(x[q + 1] == t1[0]);
        assert(pos + 1 < n);
        lemma_written_first(s, pos + 1);
        assert(s[pos + 1] == '{');
        assert(interpolation_at(s, pos + 1) is None);
        let t2 = written(s, pos + 2);
        assert(t1 == seq!['{'] + t2);
        lemma_brace_end(s, pos + 2);
        assert(brace_end(s, pos + 2) >= n);
        lemma_first_brace(s, pos + 2);
        let a2 = a + seq!['{'];
        assert(x =~= a2 + t2);
        lemma_brace_shift(a2, t2, 0);
        assert(brace_end(x, q + 2) == x.len());
    }
    if c == '{' {
        lemma_brace_shift(a, t1, 0);
        let k = brace_end(t1, 0);
        lemma_first_brace(s, pos + 1);
        lemma_brace_end(s, pos + 1);
        let c1 = brace_end(s, pos + 1);
        if c1 < n && k + 1 < t1.len() {
            let after = t1.subrange(k + 1, t1.len() as int);
            assert(after == written(s, c1 + 1));
            assert(after[0] == t1[k + 1]);
            assert(x[q + 1 + k + 1] == t1[k + 1]);
            assert(c1 + 1 < n);
            lemma_written_first(s, c1 + 1);
        }
    }
}

/// What a content is written as falls into the same pieces as the content.
pub proof fn lemma_reparse(s: Seq<char>, pos: int, from: int, w: Seq<char>)
    requires
        0 <= from <= pos <= s.len(),
    ensures
        segments_from(
            w + s.subrange(from, pos) + written(s, pos),
            w.len() + pos - from,
            w.len() as int,
        ) == segments_from(s, pos, from),
    decreases s.len() - pos,
{
    let n = s.len() as int;
    let lit = s.subrange(from, pos);
    let t = written(s, pos);
    let x = w + lit + t;
    let q = w.len() + pos - from;
    let b = w.len() as int;
    if pos >= n {
        assert(x =~= w + lit);
        if from < pos {
            assert(x.subrange(b, x.len() as int) =~= s.subrange(from, n));
        }
    } else if s[pos] == '\\' {
        assert(x[q] == t[0]);
        if pos + 1 >= n {
            assert(x.subrange(b, x.len() as int) =~= s.subrange(from, n));
        } else {
            lemma_reparse(s, pos + 2, from, w);
            assert(w + s.subrange(from, pos + 2) + written(s, pos + 2) =~= x);
        }
    } else {
        match interpolation_at(s, pos) {
            Some((start, close, next)) => {
                lemma_interpolation(s, pos);
                let name = s.subrange(start, close);
                let rest = written(s, next);
                assert(t == seq!['$', '{'] + name + seq!['}'] + rest);
                let m = name.len() as int;
                assert(x[q] == '$');
                assert(x[q + 1] == '{');
                assert forall|j: int| q + 2 <= j < q + 2 + m implies x[j] != '}' by {
                    assert(x[j] == name[j - q - 2]);
                }
                assert(x[q + 2 + m] == '}');
                lemma_brace_at(x, q + 2, q + 2 + m);
                assert(interpolation_at(x, q) == Some((q + 2, q + 2 + m, q + 3 + m)));
                assert(x.subrange(q + 2, q + 2 + m) =~= name);
                if from < pos {
                    assert(x.subrange(b, q) =~= lit);
                }
                assert(literal_piece(x, b, q) == literal_piece(s, from, pos));
                let w2 = w + lit + seq!['$', '{'] + name + seq!['}'];
                lemma_reparse(s, next, next, w2);
                assert(s.subrange(next, next) =~= Seq::empty());
                assert(w2 + s.subrange(next, next) + rest =~= x);
            },
            None => {
                lemma_no_interpolation(s, pos, w + lit);
                assert(x[q] == t[0]);
                lemma_reparse(s, pos + 1, from, w);
                assert(w + s.subrange(from, pos + 1) + written(s, pos + 1) =~= x);
            },
        }
    }
}

/// The pieces of a content, written out as text, fall into the same pieces.
pub proof fn lemma_segments_read_back(content: Seq<char>)
    ensures
        segments_text(segments_of(content)) == written(content, 0),
        segments_of(segments_text(segments_of(content))) == segments_of(content),
{
    lemma_written(content, 0, 0);
    assert(content.subrange(0, 0) =~= Seq::empty());
    assert(content.subrange(0, 0) + written(content, 0) =~= written(content, 0));
    lemma_reparse(content, 0, 0, Seq::empty());
    assert(Seq::<char>::empty() + content.subrange(0, 0) + written(content, 0) =~= written(
        content,
        0,
    ));
}

/// Where reading a name inside `${name}` for the closing quote stops: at
/// the first character that is the quote and that no backslash takes along;
/// nowhere, where there is none.
pub open spec fn name_scan(name: Seq<char>, i: int, end: char) -> Option<int>
    decreases name.len() - i,
{
    if i < 0 || i >= name.len() {
        None
    } else if name[i] == end {
        Some(i)
    } else if name[i] == '\\' {
        if i + 1 >= name.len() {
            None
        } else {
            name_scan(name, i + 2, end)
        }
    } else {
        name_scan(name, i + 1, end)
    }
}

/// Where reading for the closing quote ends, from inside a name that a `}`
/// follows.
pub open spec fn scan_result(a: Seq<char>, at: int, name: Seq<char>, i: int, end: char) -> Result<
    int,
    LexError,
> {
    match name_scan(name, i, end) {
        Some(k) => Ok(at + k),
        None => string_end(a, at + name.len() + 1, end),
    }
}

/// Reading for the closing quote from inside a name that a `}` follows stops
/// inside the name or goes on behind the `}`.
proof fn lemma_scan_name(a: Seq<char>, at: int, name: Seq<char>, i: int, end: char)
    requires
        0 <= i <= name.len(),
        0 <= at,
        at + name.len() < a.len(),
        a.subrange(at, at + name.len()) == name,
        a[at + name.len()] == '}',
        end != '}',
    ensures
        string_end(a, at + i, end) == scan_result(a, at, name, i, end),
        name_scan(name, i, end) matches Some(k) ==> i <= k < name.len(),
    decreases name.len() - i,
{
    if i < name.len() {
        assert(name[i] == a[at + i]);
        if name[i] == end {
        } else if name[i] == '\\' {
            if i + 1 < name.len() {
                lemma_scan_name(a, at, name, i + 2, end);
            }
        } else {
            lemma_scan_name(a, at, name, i + 1, end);
        }
    }
}

/// A string literal ends at or behind the index from which it is read.
proof fn lemma_string_end_lower(s: Seq<char>, i: int, end: char)
    requires
        0 <= i,
    ensures
        string_end(s, i, end) matches Ok(k) ==> i <= k < s.len(),
    decreases s.len() - i,
{
    if i < s.len() && s[i] != end {
        if s[i] == '\\' {
            if i + 1 < s.len() {
                lemma_string_end_lower(s, i + 2, end);
            }
        } else {
            lemma_string_end_lower(s, i + 1, end);
        }
    }
}

/// A quote that closes a content closes what the content is written as.
proof fn lemma_closes_written(s: Seq<char>, pos: int, w: Seq<char>, end: char)
    requires
        0 <= pos <= s.len(),
        end != '\\' && end != '$' && end != '{' && end != '}',
        string_end(s.push(end), pos, end) == Ok::<int, LexError>(s.len() as int),
    ensures
        string_end((w + written(s, pos)).push(end), w.len() as int, end) == Ok::<int, LexError>(
            (w.len() + written(s, pos).len()) as int,
        ),
    decreases s.len() - pos,
{
    let n = s.len() as int;
    let sx = s.push(end);
    let t = written(s, pos);
    let x = (w + t).push(end);
    let b = w.len() as int;
    if pos >= n {
        assert(x[b] == end);
    } else {
        assert(sx[pos] == s[pos]);
        if s[pos] == '\\' {
            lemma_string_end_lower(sx, pos + 2, end);
            assert(pos + 1 < n);
            assert(sx[pos + 1] == s[pos + 1]);
            let w2 = w + seq!['\\', s[pos + 1]];
            lemma_closes_written(s, pos + 2, w2, end);
            assert((w2 + written(s, pos + 2)).push(end) =~= x);
            assert(x[b] == '\\');
            assert(string_end(x, b, end) == string_end(x, b + 2, end));
        } else {
            match interpolation_at(s, pos) {
                Some((start, close, next)) => {
                    lemma_interpolation(s, pos);
                    let name = s.subrange(start, close);
                    let m = name.len() as int;
                    assert(sx.subrange(start, start + m) =~= name);
                    assert(sx[close] == '}');
                    if start == pos + 2 {
                        assert(sx[pos + 1] == '{');
                    }
                    assert(sx[pos] != end) by {
                        if sx[pos] == end {
                            assert(string_end(sx, pos, end) == Ok::<int, LexError>(pos));
                        }
                    }
                    assert(string_end(sx, pos, end) == string_end(sx, pos + 1, end));
                    if start == pos + 2 {
                        assert(string_end(sx, pos + 1, end) == string_end(sx, pos + 2, end));
                    }
                    assert(string_end(sx, pos, end) == string_end(sx, start, end));
                    lemma_scan_name(sx, start, name, 0, end);
                    assert(name_scan(name, 0, end) is None);
                    assert(string_end(sx, close + 1, end) == Ok::<int, LexError>(n));
                    if next == close + 2 {
                        assert(sx[close + 1] == s[close + 1]);
                    }
                    assert(string_end(sx, next, end) == Ok::<int, LexError>(n));
                    let w2 = w + seq!['$', '{'] + name + seq!['}'];
                    lemma_closes_written(s, next, w2, end);
                    assert((w2 + written(s, next)).push(end) =~= x);
                    assert(x[b] == '$');
                    assert(x[b + 1] == '{');
                    assert(x.subrange(b + 2, b + 2 + m) =~= name);
                    assert(x[b + 2 + m] == '}');
                    lemma_scan_name(x, b + 2, name, 0, end);
                    assert(string_end(x, b, end) == string_end(x, b + 1, end));
                    assert(string_end(x, b + 1, end) == string_end(x, b + 2, end));
                    assert(string_end(x, b + 2, end) == string_end(x, b + 3 + m, end));
                },
                None => {
                    assert(sx[pos] != end) by {
                        if sx[pos] == end {
                            assert(string_end(sx, pos, end) == Ok::<int, LexError>(pos));
                        }
                    }
                    assert(string_end(sx, pos, end) == string_end(sx, pos + 1, end));
                    let w2 = w + seq![s[pos]];
                    lemma_closes_written(s, pos + 1, w2, end);
                    assert((w2 + written(s, pos + 1)).push(end) =~= x);
                    assert(x[b] == s[pos]);
                    assert(string_end(x, b, end) == string_end(x, b + 1, end));
                },
            }
        }
    }
}

/// Reading a string literal up to its closing quote does not depend on what
/// follows the quote.
proof fn lemma_string_end_truncate(t: Seq<char>, rest: Seq<char>, i: int, end: char)
    requires
        0 <= i <= t.len(),
        string_end(t + rest, i, end) is Ok,
        string_end(t + rest, i, end)->Ok_0 < t.len(),
    ensures
        string_end(t, i, end) == string_end(t + rest, i, end),
    decreases t.len() - i,
{
    let x = t + rest;
    lemma_string_end_lower(x, i, end);
    if i < t.len() {
        assert(x[i] == t[i]);
        if t[i] != end {
            if t[i] == '\\' {
                lemma_string_end_lower(x, i + 2, end);
                lemma_string_end_truncate(t, rest, i + 2, end);
            } else {
                lemma_string_end_lower(x, i + 1, end);
                lemma_string_end_truncate(t, rest, i + 1, end);
            }
        }
    }
}

/// The four quotes that close a string literal.
pub open spec fn is_closing_quote(c: char) -> bool {
    c == '"' || c == '\'' || c == '`' || c == '»'
}

/// The content of a string literal that a quote closes in a text is a
/// content that the quote closes.
pub proof fn lemma_content_closes(s: Seq<char>, pos: int, end: char)
    requires
        0 <= pos <= s.len(),
        string_end(s, pos, end) is Ok,
    ensures
        pos <= string_end(s, pos, end)->Ok_0 < s.len(),
        closes(s.subrange(pos, string_end(s, pos, end)->Ok_0), end),
{
    let close = string_end(s, pos, end)->Ok_0;
    lemma_string_end_lower(s, pos, end);
    crate::roundtrip::lemma_string_end_found(s, pos, end);
    let content = s.subrange(pos, close);
    let front = s.subrange(0, pos);
    let middle = s.subrange(pos, close + 1);
    let back = s.subrange(close + 1, s.len() as int);
    assert(front + (middle + back) =~= s);
    crate::roundtrip::lemma_string_end_moves(front, middle + back, 0, end);
    assert(string_end(middle + back, 0, end) == Ok::<int, LexError>(close - pos));
    lemma_string_end_truncate(middle, back, 0, end);
    assert(content.push(end) =~= middle);
}

/// What a string literal of a text is written as reads back: it falls into
/// the pieces of the literal, and the quote that was chosen closes it.
pub proof fn lemma_literal_reads_back(content: Seq<char>, end: char)
    requires
        is_closing_quote(end),
        closes(content, end),
    ensures
        segments_of(segments_text(segments_of(content))) == segments_of(content),
        closes(
            segments_text(segments_of(content)),
            quotes_for(segments_text(segments_of(content))).1,
        ),
{
    lemma_segments_read_back(content);
    lemma_closes_written(content, 0, Seq::empty(), end);
    assert((Seq::<char>::empty() + written(content, 0)).push(end) =~= written(content, 0).push(
        end,
    ));
}

} // verus!
