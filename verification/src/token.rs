//! The tokens that the lexer produces.

use vstd::prelude::*;
use crate::text::{copy_text, text_eq, views};

verus! {

/// One piece of a string literal: literal text, or the name of a variable
/// whose value is put in its place when the literal is evaluated.
#[derive(Debug, PartialEq, Eq)]
pub enum StringSegment {
    String(Vec<char>),
    Ident(Vec<char>),
}

/// The view of a piece: its text by its characters.
pub ghost enum StringSegmentView {
    String(Seq<char>),
    Ident(Seq<char>),
}

impl View for StringSegment {
    type V = StringSegmentView;

    open spec fn view(&self) -> StringSegmentView {
        match self {
            StringSegment::String(s) => StringSegmentView::String(s@),
            StringSegment::Ident(s) => StringSegmentView::Ident(s@),
        }
    }
}

impl Clone for StringSegment {
    /// A deep copy.
    fn clone(&self) -> (r: Self)
        ensures
            r@ == self@,
    {
        match self {
            StringSegment::String(s) => StringSegment::String(copy_text(s)),
            StringSegment::Ident(s) => StringSegment::Ident(copy_text(s)),
        }
    }
}

impl StringSegment {
    /// Whether two segments are of one kind and hold the same text.
    pub fn same(&self, other: &StringSegment) -> (r: bool)
        ensures
            r == (self@ == other@),
    {
        match (self, other) {
            (StringSegment::String(a), StringSegment::String(b)) => text_eq(a, b),
            (StringSegment::Ident(a), StringSegment::Ident(b)) => text_eq(a, b),
            _ => false,
        }
    }
}

/// A fresh copy of a list of segments.
pub fn copy_segments(a: &Vec<StringSegment>) -> (r: Vec<StringSegment>)
    ensures
        views(r@) == views(a@),
{
    let mut r: Vec<StringSegment> = Vec::new();
    let mut i: usize = 0;
    while i < a.len()
        invariant
            i <= a.len(),
            r@.len() == i,
            forall|j: int| 0 <= j < i ==> r@[j]@ == a@[j]@,
        decreases a.len() - i,
    {
        r.push(a[i].clone());
        i += 1;
    }
    assert(views(r@) =~= views(a@));
    r
}

/// Whether two lists of segments hold the same segments in the same order.
pub fn segments_eq(a: &Vec<StringSegment>, b: &Vec<StringSegment>) -> (r: bool)
    ensures
        r == (views(a@) == views(b@)),
{
    if a.len() != b.len() {
        assert(views(a@).len() != views(b@).len());
        return false;
    }
    let mut i: usize = 0;
    while i < a.len()
        invariant
            i <= a.len(),
            a.len() == b.len(),
            forall|j: int| 0 <= j < i ==> a@[j]@ == b@[j]@,
        decreases a.len() - i,
    {
        if !a[i].same(&b[i]) {
            assert(views(a@)[i as int] != views(b@)[i as int]);
            return false;
        }
        i += 1;
    }
    assert(views(a@) =~= views(b@));
    true
}

/// A token of a source text.
#[derive(Debug, PartialEq, Eq)]
pub enum Token {
    Ident(Vec<char>),
    String(Vec<StringSegment>),
    /// A run of white space, with its width; a line feed counts three.
    Space(u8),
    /// A run of `=`, with its length.
    Equal(u8),
    /// A run of `!`, with its length.
    Bang(u8),
    /// A run of `?`, with its length.
    Question(u8),
    Plus,
    PlusPlus,
    PlusEq,
    Tack,
    TackTack,
    TackEq,
    Star,
    StarEq,
    Slash,
    SlashEq,
    Percent,
    PercentEq,
    LCaret,
    LCaretEq,
    RCaret,
    RCaretEq,
    LParen,
    RParen,
    LSquirrely,
    RSquirrely,
    LSquare,
    RSquare,
    Arrow,
    Semicolon,
    Comma,
    Colon,
    Dot,
    And,
    Or,
}

/// The view of a token: texts by their characters.
pub ghost enum TokenView {
    Ident(Seq<char>),
    String(Seq<StringSegmentView>),
    Space(u8),
    Equal(u8),
    Bang(u8),
    Question(u8),
    Plus,
    PlusPlus,
    PlusEq,
    Tack,
    TackTack,
    TackEq,
    Star,
    StarEq,
    Slash,
    SlashEq,
    Percent,
    PercentEq,
    LCaret,
    LCaretEq,
    RCaret,
    RCaretEq,
    LParen,
    RParen,
    LSquirrely,
    RSquirrely,
    LSquare,
    RSquare,
    Arrow,
    Semicolon,
    Comma,
    Colon,
    Dot,
    And,
    Or,
}

impl View for Token {
    type V = TokenView;

    open spec fn view(&self) -> TokenView {
        match self {
            Token::Ident(s) => TokenView::Ident(s@),
            Token::String(segments) => TokenView::String(views(segments@)),
            Token::Space(n) => TokenView::Space(*n),
            Token::Equal(n) => TokenView::Equal(*n),
            Token::Bang(n) => TokenView::Bang(*n),
            Token::Question(n) => TokenView::Question(*n),
            Token::Plus => TokenView::Plus,
            Token::PlusPlus => TokenView::PlusPlus,
            Token::PlusEq => TokenView::PlusEq,
            Token::Tack => TokenView::Tack,
            Token::TackTack => TokenView::TackTack,
            Token::TackEq => TokenView::TackEq,
            Token::Star => TokenView::Star,
            Token::StarEq => TokenView::StarEq,
            Token::Slash => TokenView::Slash,
            Token::SlashEq => TokenView::SlashEq,
            Token::Percent => TokenView::Percent,
            Token::PercentEq => TokenView::PercentEq,
            Token::LCaret => TokenView::LCaret,
            Token::LCaretEq => TokenView::LCaretEq,
            Token::RCaret => TokenView::RCaret,
            Token::RCaretEq => TokenView::RCaretEq,
            Token::LParen => TokenView::LParen,
            Token::RParen => TokenView::RParen,
            Token::LSquirrely => TokenView::LSquirrely,
            Token::RSquirrely => TokenView::RSquirrely,
            Token::LSquare => TokenView::LSquare,
            Token::RSquare => TokenView::RSquare,
            Token::Arrow => TokenView::Arrow,
            Token::Semicolon => TokenView::Semicolon,
            Token::Comma => TokenView::Comma,
            Token::Colon => TokenView::Colon,
            Token::Dot => TokenView::Dot,
            Token::And => TokenView::And,
            Token::Or => TokenView::Or,
        }
    }
}

impl Clone for Token {
    /// A deep copy.
    fn clone(&self) -> (r: Self)
        ensures
            r@ == self@,
    {
        match self {
            Token::Ident(s) => Token::Ident(copy_text(s)),
            Token::String(segments) => Token::String(copy_segments(segments)),
            Token::Space(n) => Token::Space(*n),
            Token::Equal(n) => Token::Equal(*n),
            Token::Bang(n) => Token::Bang(*n),
            Token::Question(n) => Token::Question(*n),
            Token::Plus => Token::Plus,
            Token::PlusPlus => Token::PlusPlus,
            Token::PlusEq => Token::PlusEq,
            Token::Tack => Token::Tack,
            Token::TackTack => Token::TackTack,
            Token::TackEq => Token::TackEq,
            Token::Star => Token::Star,
            Token::StarEq => Token::StarEq,
            Token::Slash => Token::Slash,
            Token::SlashEq => Token::SlashEq,
            Token::Percent => Token::Percent,
            Token::PercentEq => Token::PercentEq,
            Token::LCaret => Token::LCaret,
            Token::LCaretEq => Token::LCaretEq,
            Token::RCaret => Token::RCaret,
            Token::RCaretEq => Token::RCaretEq,
            Token::LParen => Token::LParen,
            Token::RParen => Token::RParen,
            Token::LSquirrely => Token::LSquirrely,
            Token::RSquirrely => Token::RSquirrely,
            Token::LSquare => Token::LSquare,
            Token::RSquare => Token::RSquare,
            Token::Arrow => Token::Arrow,
            Token::Semicolon => Token::Semicolon,
            Token::Comma => Token::Comma,
            Token::Colon => Token::Colon,
            Token::Dot => Token::Dot,
            Token::And => Token::And,
            Token::Or => Token::Or,
        }
    }
}

} // verus!
