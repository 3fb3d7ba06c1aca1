//! Grouping by white space: the operators of an expression bind the tighter
//! the less white space surrounds them.

use vstd::prelude::*;
use crate::syntax::{lemma_models, Operation, Syntax, SyntaxView, UnaryOperation};
use crate::lexer::token_text;
use crate::number::{nat_digits, push_digits};
use crate::text::{append, append_str, copy_text, views};
use crate::token::{Token, TokenView};

verus! {

/// Why a token list is no program.
#[derive(Debug, Clone, Copy, PartialEq, Eq, Structural)]
pub enum ParseError {
    /// The token at this index cannot stand where it stands.
    UnexpectedToken { at: usize },
    /// The tokens end where an expression has to follow.
    UnexpectedEnd,
    /// A block is not closed by `}`.
    MissingBrace,
    /// An argument list is not closed by `)`.
    MissingParen,
    /// A declaration goes wrong at the token at this index.
    BadDeclaration { at: usize },
    /// A type annotation goes wrong at the token at this index.
    BadType { at: usize },
    /// The left side of `->` is neither a name nor a list of names.
    BadParameters,
    /// An operator stands where an expression has to stand.
    ExpectedExpression,
}

/// The token at an index by its text in quotes, or the end of the tokens.
pub open spec fn named(tokens: Seq<TokenView>, at: usize) -> Seq<char> {
    if at < tokens.len() {
        "`"@ + token_text(tokens[at as int]) + "`"@
    } else {
        "the end of the file"@
    }
}

impl ParseError {
    /// What the error says before it names a token.
    pub open spec fn headline(self) -> Seq<char> {
        match self {
            ParseError::UnexpectedToken { .. } => "Unexpected token"@,
            ParseError::UnexpectedEnd => "Unexpected End of File"@,
            ParseError::MissingBrace => "Expected `}`"@,
            ParseError::MissingParen => "Expected `)`"@,
            ParseError::BadDeclaration { .. } =>
                "Expected `const` or `var`, a variable name, and `!`, `:`, or `=`"@,
            ParseError::BadType { .. } => "Expected a type after `:`"@,
            ParseError::BadParameters =>
                "Function input can only have identifier or parenthesized list of identifiers"@,
            ParseError::ExpectedExpression => "Expected expression"@,
        }
    }

    /// The index of the token that the error is about, where it is about one.
    pub open spec fn place(self) -> Option<usize> {
        match self {
            ParseError::UnexpectedToken { at } => Some(at),
            ParseError::BadDeclaration { at } => Some(at),
            ParseError::BadType { at } => Some(at),
            _ => None,
        }
    }

    /// The error in words, with the index of the token it is about.
    pub open spec fn message_spec(self) -> Seq<char> {
        match self.place() {
            Some(at) => self.headline() + " at token "@ + nat_digits(at as nat),
            None => self.headline(),
        }
    }

    /// The error in words, with the token it is about by its text.
    pub open spec fn message_for_spec(self, tokens: Seq<TokenView>) -> Seq<char> {
        match self.place() {
            Some(at) => self.headline() + "; got "@ + named(tokens, at),
            None => self.headline(),
        }
    }

    /// Appends what the error says before it names a token.
    fn write_headline(&self, buf: &mut Vec<char>)
        ensures
            final(buf)@ == old(buf)@ + self.headline(),
    {
        match self {
            ParseError::UnexpectedToken { .. } => append_str(buf, "Unexpected token"),
            ParseError::UnexpectedEnd => append_str(buf, "Unexpected End of File"),
            ParseError::MissingBrace => append_str(buf, "Expected `}`"),
            ParseError::MissingParen => append_str(buf, "Expected `)`"),
            ParseError::BadDeclaration { .. } => append_str(
                buf,
                "Expected `const` or `var`, a variable name, and `!`, `:`, or `=`",
            ),
            ParseError::BadType { .. } => append_str(buf, "Expected a type after `:`"),
            ParseError::BadParameters => append_str(
                buf,
                "Function input can only have identifier or parenthesized list of identifiers",
            ),
            ParseError::ExpectedExpression => append_str(buf, "Expected expression"),
        }
    }

    /// The index of the token that the error is about, where it is about one.
    fn at(&self) -> (r: Option<usize>)
        ensures
            r == self.place(),
    {
        match self {
            ParseError::UnexpectedToken { at } => Some(*at),
            ParseError::BadDeclaration { at } => Some(*at),
            ParseError::BadType { at } => Some(*at),
            _ => None,
        }
    }

    /// The error in words, with the index of the token it is about.
    pub fn message(&self) -> (r: Vec<char>)
        ensures
            r@ == self.message_spec(),
    {
        let mut buf: Vec<char> = Vec::new();
        self.write_headline(&mut buf);
        if let Some(at) = self.at() {
            append_str(&mut buf, " at token ");
            push_digits(&mut buf, at as u128);
        }
        assert(buf@ =~= self.message_spec());
        buf
    }

    /// The error in words, with the token it is about by its text.
    pub fn message_for(&self, tokens: &Vec<Token>) -> (r: Vec<char>)
        ensures
            r@ == self.message_for_spec(views(tokens@)),
    {
        let mut buf: Vec<char> = Vec::new();
        self.write_headline(&mut buf);
        if let Some(at) = self.at() {
            append_str(&mut buf, "; got ");
            if at < tokens.len() {
                append_str(&mut buf, "`");
                let text = tokens[at].to_text();
                append(&mut buf, &text);
                append_str(&mut buf, "`");
            } else {
                append_str(&mut buf, "the end of the file");
            }
        }
        assert(buf@ =~= self.message_for_spec(views(tokens@)));
        buf
    }
}

/// One item of an expression, with the white space that belongs to it: for an
/// operator the white space on both sides, for the others that before them.
#[derive(Debug)]
pub enum GroupItem {
    Syntax(Syntax, u8),
    Operation(Operation, u8),
    Unary(UnaryOperation, u8),
}

/// The view of an item: the tree by its view.
pub ghost enum GroupItemView {
    Syntax(SyntaxView, u8),
    Operation(Operation, u8),
    Unary(UnaryOperation, u8),
}

impl View for GroupItem {
    type V = GroupItemView;

    open spec fn view(&self) -> GroupItemView {
        match self {
            GroupItem::Syntax(s, w) => GroupItemView::Syntax(s@, *w),
            GroupItem::Operation(op, w) => GroupItemView::Operation(*op, *w),
            GroupItem::Unary(op, w) => GroupItemView::Unary(*op, *w),
        }
    }
}

impl GroupItemView {
    /// The white space that belongs to the item.
    pub open spec fn width(self) -> u8 {
        match self {
            GroupItemView::Syntax(_, w) => w,
            GroupItemView::Operation(_, w) => w,
            GroupItemView::Unary(_, w) => w,
        }
    }
}

/// Whether an exec result is the spec result, the tree by its view.
pub open spec fn syntax_result_is(
    r: Result<(Syntax, usize), ParseError>,
    expected: Result<(SyntaxView, int), ParseError>,
) -> bool {
    match expected {
        Err(e) => r == Err::<(Syntax, usize), ParseError>(e),
        Ok((syntax, next)) => r is Ok && r->Ok_0.0@ == syntax && r->Ok_0.1 == next,
    }
}

/// The operators that assign: they group from right to left.
pub open spec fn is_assignment(op: Operation) -> bool {
    match op {
        Operation::Equal(n) => n <= 1,
        Operation::AddEq | Operation::SubEq | Operation::MulEq | Operation::DivEq
        | Operation::ModEq => true,
        _ => false,
    }
}

/// Whether every tree of a list is a name.
pub open spec fn all_idents(list: Seq<SyntaxView>) -> bool {
    forall|i: int| 0 <= i < list.len() ==> (#[trigger] list[i]) is Ident
}

/// The names of a list of names.
pub open spec fn ident_names(list: Seq<SyntaxView>) -> Seq<Seq<char>> {
    Seq::new(list.len(), |i: int| list[i]->Ident_0)
}

/// The tree of `left op right`. With `->` it is a function literal, whose
/// left side has to be a name or a list of names.
pub open spec fn operation_tree(left: SyntaxView, op: Operation, right: SyntaxView) -> Result<
    SyntaxView,
    ParseError,
> {
    if op == Operation::Arrow {
        match left {
            SyntaxView::Block(list) => if all_idents(list) {
                Ok(SyntaxView::Function(ident_names(list), Box::new(right)))
            } else {
                Err(ParseError::BadParameters)
            },
            SyntaxView::Ident(name) => Ok(SyntaxView::Function(seq![name], Box::new(right))),
            _ => Err(ParseError::BadParameters),
        }
    } else {
        Ok(SyntaxView::Operation(Box::new(left), op, Box::new(right)))
    }
}

/// The arguments that an expression stands for where it follows a callee: the
/// statements of a block, or the expression alone.
pub open spec fn call_arguments(s: SyntaxView) -> Seq<SyntaxView> {
    match s {
        SyntaxView::Block(list) => list,
        other => seq![other],
    }
}

/// The tree of a result under a unary operator.
pub open spec fn wrap_unary(op: UnaryOperation, r: Result<(SyntaxView, int), ParseError>) -> Result<
    (SyntaxView, int),
    ParseError,
> {
    match r {
        Err(e) => Err(e),
        Ok((s, end)) => Ok((SyntaxView::UnaryOperation(op, Box::new(s)), end)),
    }
}

/// Reads, from the item before `end` backwards, the expression whose operators
/// have less white space than `spacing`. Gives the tree and the number of
/// items that are left in front of it. Among operators of one width, those
/// that assign take the whole chains between them as operands and group from
/// right to left; the others group from left to right.
pub open spec fn group_expr(items: Seq<GroupItemView>, end: int, spacing: nat) -> Result<
    (SyntaxView, int),
    ParseError,
>
    decreases end, spacing, 2nat,
{
    match group_chain(items, end, spacing) {
        Err(e) => Err(e),
        Ok((right, rest)) => if 0 <= rest <= end {
            group_tail(items, rest, spacing, right)
        } else {
            Err(ParseError::UnexpectedEnd)
        },
    }
}

/// Reads, from the item before `end` backwards, a chain of operands joined by
/// operators that do not assign and have less white space than `spacing`,
/// and a callee that stands in front of it.
pub open spec fn group_chain(items: Seq<GroupItemView>, end: int, spacing: nat) -> Result<
    (SyntaxView, int),
    ParseError,
>
    decreases end, spacing, 1nat,
{
    if end <= 0 || end > items.len() {
        Err(ParseError::UnexpectedEnd)
    } else if spacing == 0 {
        match items[end - 1] {
            GroupItemView::Syntax(s, _) => Ok((s, end - 1)),
            GroupItemView::Unary(op, w) => wrap_unary(op, group_expr(items, end - 1, w as nat + 1)),
            GroupItemView::Operation(_, _) => Err(ParseError::ExpectedExpression),
        }
    } else {
        match items[end - 1] {
            GroupItemView::Unary(op, w) => wrap_unary(op, group_expr(items, end - 1, w as nat + 1)),
            _ => match group_expr(items, end, (spacing - 1) as nat) {
                Err(e) => Err(e),
                Ok((right, rest)) => if 0 < rest < end && joins(items[rest - 1], spacing) {
                    match group_chain(items, rest - 1, spacing) {
                        Err(e) => Err(e),
                        Ok((left, front)) => match operation_tree(
                            left,
                            items[rest - 1]->Operation_0,
                            right,
                        ) {
                            Err(e) => Err(e),
                            Ok(tree) => Ok(call_tail(items, front, spacing, tree)),
                        },
                    }
                } else {
                    Ok(call_tail(items, rest, spacing, right))
                },
            },
        }
    }
}

/// Whether an item is an operator that does not assign and has less white
/// space than `spacing`.
pub open spec fn joins(item: GroupItemView, spacing: nat) -> bool {
    item matches GroupItemView::Operation(op, w) && w < spacing && !is_assignment(op)
}

/// Whether an item is an operator that assigns and has less white space than
/// `spacing`.
pub open spec fn assigns_at(item: GroupItemView, spacing: nat) -> bool {
    item matches GroupItemView::Operation(op, w) && w < spacing && is_assignment(op)
}

/// Goes on, with the expression `right` read so far, to the assigning
/// operators in front of it that have less white space than `spacing`.
pub open spec fn group_tail(
    items: Seq<GroupItemView>,
    end: int,
    spacing: nat,
    right: SyntaxView,
) -> Result<(SyntaxView, int), ParseError>
    decreases end, spacing, 0nat,
{
    if 0 < end <= items.len() && assigns_at(items[end - 1], spacing) {
        match group_chain(items, end - 1, spacing) {
            Err(e) => Err(e),
            Ok((left, rest)) => match operation_tree(left, items[end - 1]->Operation_0, right) {
                Err(e) => Err(e),
                Ok(tree) => if 0 <= rest < end {
                    group_tail(items, rest, spacing, tree)
                } else {
                    Err(ParseError::UnexpectedEnd)
                },
            },
        }
    } else {
        Ok((right, end))
    }
}

/// Where an expression stands right in front of `arguments`, with no more
/// white space than `spacing`, it is called with them.
pub open spec fn call_tail(
    items: Seq<GroupItemView>,
    end: int,
    spacing: nat,
    arguments: SyntaxView,
) -> (SyntaxView, int) {
    if 0 < end <= items.len() {
        match items[end - 1] {
            GroupItemView::Syntax(callee, w) => if w <= spacing {
                (SyntaxView::Call(Box::new(callee), call_arguments(arguments)), end - 1)
            } else {
                (arguments, end)
            },
            _ => (arguments, end),
        }
    } else {
        (arguments, end)
    }
}

/// The widest white space of the items before `end`.
pub open spec fn max_width(items: Seq<GroupItemView>, end: int) -> u8
    decreases end,
{
    if end <= 0 || end > items.len() {
        0
    } else {
        let rest = max_width(items, end - 1);
        let w = items[end - 1].width();
        if w > rest {
            w
        } else {
            rest
        }
    }
}

/// The tree of a whole list of items. Items that the grouping leaves in front
/// are dropped.
pub open spec fn group_items(items: Seq<GroupItemView>) -> Result<SyntaxView, ParseError> {
    match group_expr(items, items.len() as int, max_width(items, items.len() as int) as nat + 1) {
        Err(e) => Err(e),
        Ok((tree, _)) => Ok(tree),
    }
}

/// Whether an operator assigns.
fn assigns(op: &Operation) -> (r: bool)
    ensures
        r == is_assignment(*op),
{
    match op {
        Operation::Equal(n) => *n <= 1,
        Operation::AddEq | Operation::SubEq | Operation::MulEq | Operation::DivEq
        | Operation::ModEq => true,
        _ => false,
    }
}

/// Whether an operator is `->`.
fn is_arrow(op: &Operation) -> (r: bool)
    ensures
        r == (*op == Operation::Arrow),
{
    match op {
        Operation::Arrow => true,
        _ => false,
    }
}

/// Builds the tree of `left op right`; with `->`, a function literal.
pub fn make_operation(left: Syntax, op: Operation, right: Syntax) -> (r: Result<Syntax, ParseError>)
    ensures
        match operation_tree(left@, op, right@) {
            Ok(tree) => r is Ok && r->Ok_0@ == tree,
            Err(e) => r == Err::<Syntax, ParseError>(e),
        },
{
    broadcast use lemma_models;

    let ghost left_view = left@;
    if is_arrow(&op) {
        match left {
            Syntax::Block(list) => {
                proof {
                    lemma_models(list);
                }
                assert(left_view == SyntaxView::Block(views(list@)));
                let mut names: Vec<Vec<char>> = Vec::new();
                let mut i: usize = 0;
                while i < list.len()
                    invariant
                        i <= list.len(),
                        left_view == SyntaxView::Block(views(list@)),
                        left_view == left@,
                        op == Operation::Arrow,
                        names@.len() == i,
                        forall|j: int| 0 <= j < i ==> (#[trigger] views(list@)[j]) is Ident,
                        forall|j: int|
                            0 <= j < i ==> (#[trigger] names@[j])@ == list@[j]@->Ident_0,
                    decreases list.len() - i,
                {
                    match &list[i] {
                        Syntax::Ident(name) => {
                            names.push(copy_text(name));
                        },
                        _ => {
                            assert(views(list@)[i as int] == list@[i as int]@);
                            assert(!(views(list@)[i as int] is Ident));
                            return Err(ParseError::BadParameters);
                        },
                    }
                    i += 1;
                }
                assert(views(names@) =~= ident_names(views(list@)));
                Ok(Syntax::Function(names, Box::new(right)))
            },
            Syntax::Ident(name) => {
                let mut names: Vec<Vec<char>> = Vec::new();
                names.push(name);
                assert(views(names@) =~= seq![name@]);
                Ok(Syntax::Function(names, Box::new(right)))
            },
            _ => Err(ParseError::BadParameters),
        }
    } else {
        Ok(Syntax::Operation(Box::new(left), op, Box::new(right)))
    }
}

/// Makes a call where a callee stands right in front of `arguments`.
fn finish_call(items: &Vec<GroupItem>, end: usize, spacing: u16, arguments: Syntax) -> (r: (
    Syntax,
    usize,
))
    requires
        end <= items.len(),
    ensures
        (r.0@, r.1 as int) == call_tail(views(items@), end as int, spacing as nat, arguments@),
        r.1 <= end,
{
    broadcast use lemma_models;

    let ghost arguments_view = arguments@;
    if end > 0 {
        assert(views(items@)[end - 1] == items@[end - 1]@);
        match &items[end - 1] {
            GroupItem::Syntax(callee, w) => {
                if (*w as u16) <= spacing {
                    let list: Vec<Syntax> = match arguments {
                        Syntax::Block(list) => {
                            proof {
                                lemma_models(list);
                            }
                            list
                        },
                        other => {
                            let mut single: Vec<Syntax> = Vec::new();
                            single.push(other);
                            assert(views(single@) =~= seq![other@]);
                            single
                        },
                    };
                    assert(views(list@) == call_arguments(arguments_view));
                    proof {
                        lemma_models(list);
                    }
                    (Syntax::Call(Box::new(callee.copy()), list), end - 1)
                } else {
                    (arguments, end)
                }
            },
            _ => (arguments, end),
        }
    } else {
        (arguments, end)
    }
}

/// Reads, from the item before `end` backwards, the expression whose operators
/// have less white space than `spacing`.
pub fn inner_parse_group_better(items: &Vec<GroupItem>, end: usize, spacing: u16) -> (r: Result<
    (Syntax, usize),
    ParseError,
>)
    ensures
        syntax_result_is(r, group_expr(views(items@), end as int, spacing as nat)),
        r matches Ok(t) ==> t.1 < end <= items.len(),
    decreases end, spacing, 2nat,
{
    match group_operands(items, end, spacing) {
        Err(e) => Err(e),
        Ok((right, rest)) => group_assignments(items, rest, spacing, right),
    }
}

/// The operator at `at`, where it has less white space than `spacing`, and
/// whether it assigns.
fn operator_at(items: &Vec<GroupItem>, at: usize, spacing: u16) -> (r: Option<(Operation, bool)>)
    requires
        at < items.len(),
    ensures
        match r {
            Some((op, assigning)) => views(items@)[at as int] matches GroupItemView::Operation(
                found,
                w,
            ) && found == op && w < spacing && assigning == is_assignment(op),
            None => !joins(views(items@)[at as int], spacing as nat) && !assigns_at(
                views(items@)[at as int],
                spacing as nat,
            ),
        },
{
    match &items[at] {
        GroupItem::Operation(op, w) => {
            if (*w as u16) < spacing {
                Some((*op, assigns(op)))
            } else {
                None
            }
        },
        _ => None,
    }
}

/// Reads a chain of operands joined by operators that do not assign.
fn group_operands(items: &Vec<GroupItem>, end: usize, spacing: u16) -> (r: Result<
    (Syntax, usize),
    ParseError,
>)
    ensures
        syntax_result_is(r, group_chain(views(items@), end as int, spacing as nat)),
        r matches Ok(t) ==> t.1 < end <= items.len(),
    decreases end, spacing, 1nat,
{
    if end == 0 || end > items.len() {
        return Err(ParseError::UnexpectedEnd);
    }
    assert(views(items@)[end - 1] == items@[end - 1]@);
    if spacing == 0 {
        return match &items[end - 1] {
            GroupItem::Syntax(s, _) => Ok((s.copy(), end - 1)),
            GroupItem::Unary(op, w) => {
                match inner_parse_group_better(items, end - 1, *w as u16 + 1) {
                    Err(e) => Err(e),
                    Ok((s, rest)) => Ok((Syntax::UnaryOperation(*op, Box::new(s)), rest)),
                }
            },
            GroupItem::Operation(_, _) => Err(ParseError::ExpectedExpression),
        };
    }
    if let GroupItem::Unary(op, w) = &items[end - 1] {
        return match inner_parse_group_better(items, end - 1, *w as u16 + 1) {
            Err(e) => Err(e),
            Ok((s, rest)) => Ok((Syntax::UnaryOperation(*op, Box::new(s)), rest)),
        };
    }
    match inner_parse_group_better(items, end, spacing - 1) {
        Err(e) => Err(e),
        Ok((right, rest)) => {
            if rest > 0 {
                if let Some((op, assigning)) = operator_at(items, rest - 1, spacing) {
                    if !assigning {
                        return match group_operands(items, rest - 1, spacing) {
                            Err(e) => Err(e),
                            Ok((left, front)) => match make_operation(left, op, right) {
                                Err(e) => Err(e),
                                Ok(tree) => Ok(finish_call(items, front, spacing, tree)),
                            },
                        };
                    }
                }
            }
            Ok(finish_call(items, rest, spacing, right))
        },
    }
}

/// Goes on to the assigning operators in front of `right`.
fn group_assignments(items: &Vec<GroupItem>, end: usize, spacing: u16, right: Syntax) -> (r: Result<
    (Syntax, usize),
    ParseError,
>)
    requires
        end <= items.len(),
    ensures
        syntax_result_is(r, group_tail(views(items@), end as int, spacing as nat, right@)),
        r matches Ok(t) ==> t.1 <= end,
    decreases end, spacing, 0nat,
{
    if end > 0 {
        if let Some((op, assigning)) = operator_at(items, end - 1, spacing) {
            if assigning {
                return match group_operands(items, end - 1, spacing) {
                    Err(e) => Err(e),
                    Ok((left, rest)) => match make_operation(left, op, right) {
                        Err(e) => Err(e),
                        Ok(tree) => group_assignments(items, rest, spacing, tree),
                    },
                };
            }
        }
    }
    Ok((right, end))
}

/// The widest white space among the items.
fn widest(items: &Vec<GroupItem>) -> (r: u8)
    ensures
        r == max_width(views(items@), items.len() as int),
{
    let mut widest: u8 = 0;
    let mut i: usize = 0;
    while i < items.len()
        invariant
            i <= items.len(),
            widest == max_width(views(items@), i as int),
        decreases items.len() - i,
    {
        let w: u8 = match &items[i] {
            GroupItem::Syntax(_, w) => *w,
            GroupItem::Operation(_, w) => *w,
            GroupItem::Unary(_, w) => *w,
        };
        if w > widest {
            widest = w;
        }
        i += 1;
    }
    widest
}

/// Groups a whole list of items into one tree.
pub fn group(items: &Vec<GroupItem>) -> (r: Result<Syntax, ParseError>)
    ensures
        match group_items(views(items@)) {
            Ok(tree) => r is Ok && r->Ok_0@ == tree,
            Err(e) => r == Err::<Syntax, ParseError>(e),
        },
{
    let spacing: u16 = widest(items) as u16 + 1;
    match inner_parse_group_better(items, items.len(), spacing) {
        Err(e) => Err(e),
        Ok((tree, _)) => Ok(tree),
    }
}

} // verus!
