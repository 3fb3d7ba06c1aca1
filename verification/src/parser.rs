//! The parser: from tokens to a syntax tree.

use vstd::prelude::*;
use crate::grouping::{
    group,
    group_items,
    syntax_result_is,
    wrap_unary,
    GroupItem,
    GroupItemView,
    ParseError,
};
use crate::syntax::{
    lemma_models,
    operation_of,
    Operation,
    Syntax,
    SyntaxView,
    UnaryOperation,
    VarType,
};
use crate::text::{copy_text, copy_texts, text_is, views};
use crate::token::{copy_segments, Token, TokenView};

verus! {

/// The sum of two widths, as a token holds it.
pub open spec fn width_sum(a: u8, b: u8) -> u8 {
    if a + b > 255 {
        255u8
    } else {
        (a + b) as u8
    }
}

/// Skips the white space tokens from `pos` on: the width `acc` grown by
/// theirs, and the index after them.
pub open spec fn space_run_from(ts: Seq<TokenView>, pos: int, acc: u8) -> (u8, int)
    decreases ts.len() - pos,
{
    if 0 <= pos < ts.len() {
        match ts[pos] {
            TokenView::Space(w) => space_run_from(ts, pos + 1, width_sum(acc, w)),
            _ => (acc, pos),
        }
    } else {
        (acc, pos)
    }
}

/// The width of the white space tokens from `pos` on, and the index after
/// them.
pub open spec fn space_run(ts: Seq<TokenView>, pos: int) -> (u8, int) {
    space_run_from(ts, pos, 0)
}

/// The index after the white space tokens from `pos` on.
pub open spec fn after_space(ts: Seq<TokenView>, pos: int) -> int {
    space_run(ts, pos).1
}

/// An index of a token list as a machine index.
pub open spec fn index_of(pos: int) -> usize {
    if 0 <= pos <= usize::MAX {
        pos as usize
    } else {
        0
    }
}

/// The expression `tree`, marked as a statement where a run of `!` or `?`
/// follows it, and the index after that run.
pub open spec fn statement_of(ts: Seq<TokenView>, pos: int, tree: SyntaxView) -> (SyntaxView, int) {
    if 0 <= pos < ts.len() {
        match ts[pos] {
            TokenView::Bang(n) => (SyntaxView::Statement(false, Box::new(tree), n), pos + 1),
            TokenView::Question(n) => (SyntaxView::Statement(true, Box::new(tree), n), pos + 1),
            _ => (tree, pos),
        }
    } else {
        (tree, pos)
    }
}

/// The trees of a result with one more tree in front.
pub open spec fn prepend_tree(
    first: SyntaxView,
    r: Result<(Seq<SyntaxView>, int), ParseError>,
) -> Result<(Seq<SyntaxView>, int), ParseError> {
    match r {
        Err(e) => Err(e),
        Ok((rest, p)) => Ok((seq![first] + rest, p)),
    }
}

/// The items of a result with one more item in front.
pub open spec fn prepend_item(
    first: GroupItemView,
    r: Result<(Seq<GroupItemView>, int), ParseError>,
) -> Result<(Seq<GroupItemView>, int), ParseError> {
    match r {
        Err(e) => Err(e),
        Ok((rest, p)) => Ok((seq![first] + rest, p)),
    }
}

/// The trees `done`, followed by those of `r`.
pub open spec fn prepend_trees(
    done: Seq<SyntaxView>,
    r: Result<(Seq<SyntaxView>, int), ParseError>,
) -> Result<(Seq<SyntaxView>, int), ParseError> {
    match r {
        Err(e) => Err(e),
        Ok((rest, p)) => Ok((done + rest, p)),
    }
}

/// The items `done`, followed by those of `r`.
pub open spec fn prepend_items(
    done: Seq<GroupItemView>,
    r: Result<(Seq<GroupItemView>, int), ParseError>,
) -> Result<(Seq<GroupItemView>, int), ParseError> {
    match r {
        Err(e) => Err(e),
        Ok((rest, p)) => Ok((done + rest, p)),
    }
}

/// The kind of variable that two declaring words stand for.
pub open spec fn var_type_of(first: Seq<char>, second: Seq<char>) -> VarType {
    if first == "var"@ {
        if second == "var"@ {
            VarType::VarVar
        } else {
            VarType::VarConst
        }
    } else {
        if second == "var"@ {
            VarType::ConstVar
        } else {
            VarType::ConstConst
        }
    }
}

/// Reads a type annotation: a name, then optionally `[]` or a list of types
/// between `<` and `>`. Gives the index after it.
pub open spec fn type_at(ts: Seq<TokenView>, pos: int) -> Result<int, ParseError>
    decreases ts.len() - pos, 0nat,
{
    if !(0 <= pos < ts.len()) || !(ts[pos] is Ident) {
        Err(ParseError::BadType { at: index_of(pos) })
    } else {
        let p = after_space(ts, pos + 1);
        if pos < p < ts.len() && ts[p] is LSquare {
            if p + 1 < ts.len() && ts[p + 1] is RSquare {
                Ok(p + 2)
            } else {
                Err(ParseError::BadType { at: index_of(p + 1) })
            }
        } else if pos < p < ts.len() && ts[p] is LCaret {
            match type_at(ts, p + 1) {
                Err(e) => Err(e),
                Ok(q) => if pos < q <= ts.len() {
                    type_list(ts, q)
                } else {
                    Err(ParseError::BadType { at: index_of(q) })
                },
            }
        } else {
            Ok(p)
        }
    }
}

/// Reads the rest of a list of types: further types after commas, then `>`.
pub open spec fn type_list(ts: Seq<TokenView>, pos: int) -> Result<int, ParseError>
    decreases ts.len() - pos, 1nat,
{
    if 0 <= pos < ts.len() && ts[pos] is Comma {
        let p = after_space(ts, pos + 1);
        if pos < p <= ts.len() {
            match type_at(ts, p) {
                Err(e) => Err(e),
                Ok(q) => {
                    let r = after_space(ts, q);
                    if pos < r <= ts.len() {
                        type_list(ts, r)
                    } else {
                        Err(ParseError::BadType { at: index_of(r) })
                    }
                },
            }
        } else {
            Err(ParseError::BadType { at: index_of(p) })
        }
    } else if 0 <= pos < ts.len() && ts[pos] is RCaret {
        Ok(pos + 1)
    } else {
        Err(ParseError::BadType { at: index_of(pos) })
    }
}

/// Reads one operand: a string, a name, a call, a declaration, a block, a
/// parenthesized list, or a negation of an operand.
pub open spec fn atom_at(ts: Seq<TokenView>, pos: int) -> Result<(SyntaxView, int), ParseError>
    decreases ts.len() - pos, 1nat,
{
    if !(0 <= pos < ts.len()) {
        Err(ParseError::UnexpectedEnd)
    } else {
        match ts[pos] {
            TokenView::String(segments) => Ok((SyntaxView::String(segments), pos + 1)),
            TokenView::Tack | TokenView::Semicolon => wrap_unary(
                UnaryOperation::Negate,
                atom_at(ts, pos + 1),
            ),
            TokenView::Space(_) => atom_at(ts, pos + 1),
            TokenView::Ident(name) => {
                let p = after_space(ts, pos + 1);
                if !(pos < p <= ts.len()) {
                    Err(ParseError::UnexpectedEnd)
                } else if name == "const"@ || name == "var"@ {
                    declaration_at(ts, p, name)
                } else if p < ts.len() && ts[p] is LParen {
                    let q = after_space(ts, p + 1);
                    if !(pos < q <= ts.len()) {
                        Err(ParseError::UnexpectedEnd)
                    } else {
                        match tuple_at(ts, q) {
                            Err(e) => Err(e),
                            Ok((arguments, r)) => Ok(
                                (
                                    SyntaxView::Call(
                                        Box::new(SyntaxView::Ident(name)),
                                        arguments,
                                    ),
                                    r,
                                ),
                            ),
                        }
                    }
                } else if p < ts.len() && ts[p] is Colon {
                    match type_at(ts, after_space(ts, p + 1)) {
                        Err(e) => Err(e),
                        Ok(r) => Ok((SyntaxView::Ident(name), r)),
                    }
                } else {
                    Ok((SyntaxView::Ident(name), pos + 1))
                }
            },
            TokenView::LSquirrely => match block_at(ts, pos + 1) {
                Err(e) => Err(e),
                Ok((statements, r)) => Ok((SyntaxView::Block(statements), r)),
            },
            TokenView::LParen => match tuple_at(ts, pos + 1) {
                Err(e) => Err(e),
                Ok((list, r)) => Ok(
                    (
                        if list.len() == 1 {
                            list[0]
                        } else {
                            SyntaxView::Block(list)
                        },
                        r,
                    ),
                ),
            },
            _ => Err(ParseError::UnexpectedToken { at: index_of(pos) }),
        }
    }
}

/// Reads a declaration from its second word on: the second word, the name,
/// optionally a type annotation, then `!` or `=` and a value.
pub open spec fn declaration_at(ts: Seq<TokenView>, pos: int, first: Seq<char>) -> Result<
    (SyntaxView, int),
    ParseError,
>
    decreases ts.len() - pos, 0nat,
{
    if !(0 <= pos < ts.len()) || !(ts[pos] is Ident) || !(ts[pos]->Ident_0 == "const"@
        || ts[pos]->Ident_0 == "var"@) {
        Err(ParseError::BadDeclaration { at: index_of(pos) })
    } else {
        let vt = var_type_of(first, ts[pos]->Ident_0);
        let p1 = after_space(ts, pos + 1);
        if !(pos < p1 < ts.len()) || !(ts[p1] is Ident) {
            Err(ParseError::BadDeclaration { at: index_of(p1) })
        } else {
            let name = ts[p1]->Ident_0;
            let p2 = after_space(ts, p1 + 1);
            let annotated = p2 < ts.len() && ts[p2] is Colon;
            let annotation = type_at(ts, after_space(ts, p2 + 1));
            if annotated && annotation is Err {
                Err(annotation->Err_0)
            } else {
                let p3 = if annotated {
                    after_space(ts, annotation->Ok_0)
                } else {
                    p2
                };
                if !(pos < p3 < ts.len()) {
                    Err(ParseError::BadDeclaration { at: index_of(p3) })
                } else {
                    match ts[p3] {
                        TokenView::Bang(n) => Ok(
                            (
                                SyntaxView::Statement(
                                    false,
                                    Box::new(
                                        SyntaxView::Declare(
                                            vt,
                                            name,
                                            Box::new(SyntaxView::Block(Seq::empty())),
                                        ),
                                    ),
                                    n,
                                ),
                                p3 + 1,
                            ),
                        ),
                        TokenView::Equal(n) => if n == 1 && pos < after_space(ts, p3 + 1) <= ts.len() {
                            match group_at(ts, after_space(ts, p3 + 1)) {
                                Err(e) => Err(e),
                                Ok((value, p4)) => Ok(
                                    statement_of(
                                        ts,
                                        p4,
                                        SyntaxView::Declare(vt, name, Box::new(value)),
                                    ),
                                ),
                            }
                        } else {
                            Err(ParseError::BadDeclaration { at: index_of(p3) })
                        },
                        _ => Err(ParseError::BadDeclaration { at: index_of(p3) }),
                    }
                }
            }
        }
    }
}

/// Reads the statements of a block, up to and with its closing `}`.
pub open spec fn block_at(ts: Seq<TokenView>, pos: int) -> Result<
    (Seq<SyntaxView>, int),
    ParseError,
>
    decreases ts.len() - pos, 4nat,
{
    if !(0 <= pos < ts.len()) {
        Err(ParseError::MissingBrace)
    } else {
        match ts[pos] {
            TokenView::RSquirrely => Ok((Seq::empty(), pos + 1)),
            TokenView::Space(_) => block_at(ts, pos + 1),
            _ => match group_at(ts, pos) {
                Err(e) => Err(e),
                Ok((tree, p)) => {
                    let (statement, q) = statement_of(ts, p, tree);
                    if pos < q <= ts.len() {
                        prepend_tree(statement, block_at(ts, q))
                    } else {
                        Err(ParseError::UnexpectedEnd)
                    }
                },
            },
        }
    }
}

/// Reads the expressions of a list, up to and with its closing `)`.
pub open spec fn tuple_at(ts: Seq<TokenView>, pos: int) -> Result<
    (Seq<SyntaxView>, int),
    ParseError,
>
    decreases ts.len() - pos, 4nat,
{
    if !(0 <= pos < ts.len()) {
        Err(ParseError::MissingParen)
    } else {
        match ts[pos] {
            TokenView::RParen => Ok((Seq::empty(), pos + 1)),
            TokenView::Comma => if pos < after_space(ts, pos + 1) <= ts.len() {
                tuple_at(ts, after_space(ts, pos + 1))
            } else {
                Err(ParseError::UnexpectedEnd)
            },
            _ => match group_at(ts, pos) {
                Err(e) => Err(e),
                Ok((tree, p)) => if pos < p <= ts.len() {
                    prepend_tree(tree, tuple_at(ts, p))
                } else {
                    Err(ParseError::UnexpectedEnd)
                },
            },
        }
    }
}

/// Reads one expression: its items, grouped by their white space.
pub open spec fn group_at(ts: Seq<TokenView>, pos: int) -> Result<(SyntaxView, int), ParseError>
    decreases ts.len() - pos, 3nat,
{
    match items_at(ts, pos) {
        Err(e) => Err(e),
        Ok((items, p)) => match group_items(items) {
            Err(e) => Err(e),
            Ok(tree) => Ok((tree, p)),
        },
    }
}

/// Whether a token ends an expression.
pub open spec fn ends_expression(t: TokenView) -> bool {
    t is RParen || t is Bang || t is Question || t is RSquare || t is Comma || t is RSquirrely
}

/// Reads the items of one expression: operands, operators and the white
/// space around them, up to a token that ends the expression or through a
/// statement.
pub open spec fn items_at(ts: Seq<TokenView>, pos: int) -> Result<
    (Seq<GroupItemView>, int),
    ParseError,
>
    decreases ts.len() - pos, 2nat,
{
    let (w, p) = space_run(ts, pos);
    if p < pos || pos < 0 {
        Err(ParseError::UnexpectedEnd)
    } else if p >= ts.len() {
        Ok((Seq::empty(), p))
    } else if ts[p] is TackTack {
        prepend_item(GroupItemView::Unary(UnaryOperation::Decrement, w), items_at(ts, p + 1))
    } else if ts[p] is PlusPlus {
        prepend_item(GroupItemView::Unary(UnaryOperation::Increment, w), items_at(ts, p + 1))
    } else if ends_expression(ts[p]) {
        Ok((Seq::empty(), p))
    } else {
        match operation_of(ts[p]) {
            Some(op) => {
                let (w2, q) = space_run(ts, p + 1);
                if p < q <= ts.len() {
                    prepend_item(GroupItemView::Operation(op, width_sum(w, w2)), items_at(ts, q))
                } else {
                    Err(ParseError::UnexpectedEnd)
                }
            },
            None => match atom_at(ts, p) {
                Err(e) => Err(e),
                Ok((tree, q)) => if tree is Statement {
                    Ok((seq![GroupItemView::Syntax(tree, w)], q))
                } else if p < q <= ts.len() {
                    prepend_item(GroupItemView::Syntax(tree, w), items_at(ts, q))
                } else {
                    Err(ParseError::UnexpectedEnd)
                },
            },
        }
    }
}

/// Reads expressions until the tokens end.
pub open spec fn groups_from(ts: Seq<TokenView>, pos: int) -> Result<
    (Seq<SyntaxView>, int),
    ParseError,
>
    decreases ts.len() - pos,
{
    if !(0 <= pos < ts.len()) {
        Ok((Seq::empty(), pos))
    } else {
        match group_at(ts, pos) {
            Err(e) => Err(e),
            Ok((tree, p)) => if pos < p <= ts.len() {
                prepend_tree(tree, groups_from(ts, p))
            } else {
                Err(ParseError::UnexpectedEnd)
            },
        }
    }
}

/// The statements of a list, with those of each block among them in the
/// block's place.
pub open spec fn flatten(list: Seq<SyntaxView>) -> Seq<SyntaxView>
    decreases list.len(),
{
    if list.len() == 0 {
        Seq::empty()
    } else {
        flatten(list.drop_last()) + (match list.last() {
            SyntaxView::Block(inner) => inner,
            other => seq![other],
        })
    }
}

/// The tree with its blocks tidied: below every node but a block, each block
/// takes up the blocks right below it, and a block of one statement gives way
/// to that statement.
pub open spec fn optimized(s: SyntaxView) -> SyntaxView
    decreases s,
{
    match s {
        SyntaxView::Declare(vt, name, value) => SyntaxView::Declare(
            vt,
            name,
            Box::new(optimized(*value)),
        ),
        SyntaxView::Function(params, body) => SyntaxView::Function(
            params,
            Box::new(optimized(*body)),
        ),
        SyntaxView::Call(callee, arguments) => SyntaxView::Call(
            Box::new(optimized(*callee)),
            Seq::new(
                arguments.len(),
                |i: int|
                    if 0 <= i < arguments.len() {
                        optimized(arguments[i])
                    } else {
                        s
                    },
            ),
        ),
        SyntaxView::Operation(lhs, op, rhs) => SyntaxView::Operation(
            Box::new(optimized(*lhs)),
            op,
            Box::new(optimized(*rhs)),
        ),
        SyntaxView::UnaryOperation(op, operand) => SyntaxView::UnaryOperation(
            op,
            Box::new(optimized(*operand)),
        ),
        SyntaxView::Block(inner) => {
            let flat = flatten(inner);
            if flat.len() == 1 {
                flat[0]
            } else {
                SyntaxView::Block(flat)
            }
        },
        SyntaxView::Statement(is_debug, inner, level) => SyntaxView::Statement(
            is_debug,
            Box::new(optimized(*inner)),
            level,
        ),
        SyntaxView::Ident(_) | SyntaxView::String(_) => s,
    }
}

/// The trees of a list, each tidied.
pub open spec fn optimized_each(list: Seq<SyntaxView>) -> Seq<SyntaxView> {
    Seq::new(list.len(), |i: int| optimized(list[i]))
}

/// The program that a list of expressions stands for: always a block. The
/// statements of the blocks among the expressions stand in the places of those
/// blocks, and each statement is tidied.
pub open spec fn program_of(list: Seq<SyntaxView>) -> SyntaxView {
    SyntaxView::Block(optimized_each(flatten(list)))
}

/// The tree of a token list: the program of its expressions.
pub open spec fn parsed(ts: Seq<TokenView>) -> Result<SyntaxView, ParseError> {
    match groups_from(ts, 0) {
        Err(e) => Err(e),
        Ok((list, _)) => Ok(program_of(list)),
    }
}

/// The tree of a token list is a block at the top level, whatever the tokens.
pub proof fn lemma_parse_gives_block(ts: Seq<TokenView>)
    requires
        parsed(ts) is Ok,
    ensures
        parsed(ts)->Ok_0 is Block,
{
}

/// Whether an exec result is the spec result, the trees by their views.
pub open spec fn list_result_is(
    r: Result<(Vec<Syntax>, usize), ParseError>,
    expected: Result<(Seq<SyntaxView>, int), ParseError>,
) -> bool {
    match expected {
        Err(e) => r == Err::<(Vec<Syntax>, usize), ParseError>(e),
        Ok((list, next)) => r is Ok && views(r->Ok_0.0@) == list && r->Ok_0.1 == next,
    }
}

/// Whether an exec result is the spec result, the items by their views.
pub open spec fn items_result_is(
    r: Result<(Vec<GroupItem>, usize), ParseError>,
    expected: Result<(Seq<GroupItemView>, int), ParseError>,
) -> bool {
    match expected {
        Err(e) => r == Err::<(Vec<GroupItem>, usize), ParseError>(e),
        Ok((list, next)) => r is Ok && views(r->Ok_0.0@) == list && r->Ok_0.1 == next,
    }
}

/// The sum of two widths, as a token holds it.
fn add_widths(a: u8, b: u8) -> (r: u8)
    ensures
        r == width_sum(a, b),
{
    if a > 255 - b {
        255
    } else {
        a + b
    }
}

/// Skips the white space tokens from `pos` on: their width and the index
/// after them.
pub fn consume_whitespace(tokens: &Vec<Token>, pos: usize) -> (r: (u8, usize))
    ensures
        (r.0, r.1 as int) == space_run(views(tokens@), pos as int),
        pos <= r.1,
        r.1 <= tokens.len() || r.1 == pos,
{
    let n: usize = tokens.len();
    let mut i: usize = pos;
    let mut width: u8 = 0;
    loop
        invariant
            pos <= i,
            i <= n || i == pos,
            n == tokens.len(),
            space_run(views(tokens@), pos as int) == space_run_from(
                views(tokens@),
                i as int,
                width,
            ),
        decreases n - i,
    {
        if i >= n {
            return (width, i);
        }
        match &tokens[i] {
            Token::Space(w) => {
                width = add_widths(width, *w);
                i += 1;
            },
            _ => {
                return (width, i);
            },
        }
    }
}

/// Marks `tree` as a statement where a run of `!` or `?` follows it.
pub fn consume_bang(tree: Syntax, tokens: &Vec<Token>, pos: usize) -> (r: (Syntax, usize))
    ensures
        (r.0@, r.1 as int) == statement_of(views(tokens@), pos as int, tree@),
        pos <= r.1,
        r.1 <= tokens.len() || r.1 == pos,
{
    if pos < tokens.len() {
        match &tokens[pos] {
            Token::Bang(n) => (Syntax::Statement(false, Box::new(tree), *n), pos + 1),
            Token::Question(n) => (Syntax::Statement(true, Box::new(tree), *n), pos + 1),
            _ => (tree, pos),
        }
    } else {
        (tree, pos)
    }
}

/// The kind of variable that two declaring words stand for.
fn var_type_for(first: &Vec<char>, second: &Vec<char>) -> (r: VarType)
    ensures
        r == var_type_of(first@, second@),
{
    if text_is(first, "var") {
        if text_is(second, "var") {
            VarType::VarVar
        } else {
            VarType::VarConst
        }
    } else {
        if text_is(second, "var") {
            VarType::ConstVar
        } else {
            VarType::ConstConst
        }
    }
}

/// Whether a name stands at an index of a token list.
fn is_ident(tokens: &Vec<Token>, pos: usize) -> (r: bool)
    ensures
        r == (pos < tokens.len() && views(tokens@)[pos as int] is Ident),
{
    if pos < tokens.len() {
        match &tokens[pos] {
            Token::Ident(_) => true,
            _ => false,
        }
    } else {
        false
    }
}

/// Reads a type annotation and gives the index after it.
pub fn get_type(tokens: &Vec<Token>, pos: usize) -> (r: Result<usize, ParseError>)
    ensures
        match type_at(views(tokens@), pos as int) {
            Ok(next) => r is Ok && r->Ok_0 == next,
            Err(e) => r == Err::<usize, ParseError>(e),
        },
        r matches Ok(next) ==> pos < next <= tokens.len(),
    decreases tokens.len() - pos, 1nat,
{
    let n: usize = tokens.len();
    if !is_ident(tokens, pos) {
        return Err(ParseError::BadType { at: pos });
    }
    let (_, p) = consume_whitespace(tokens, pos + 1);
    if p < n {
        match &tokens[p] {
            Token::LSquare => {
                if p + 1 < n {
                    if let Token::RSquare = &tokens[p + 1] {
                        return Ok(p + 2);
                    }
                }
                return Err(ParseError::BadType { at: p + 1 });
            },
            Token::LCaret => {
                return match get_type(tokens, p + 1) {
                    Err(e) => Err(e),
                    Ok(q) => get_type_list(tokens, q, Ghost(pos)),
                };
            },
            _ => {},
        }
    }
    Ok(p)
}

/// Reads the rest of a list of types: further types after commas, then `>`.
fn get_type_list(tokens: &Vec<Token>, start: usize, Ghost(lower): Ghost<usize>) -> (r: Result<
    usize,
    ParseError,
>)
    requires
        lower < start <= tokens.len(),
    ensures
        match type_list(views(tokens@), start as int) {
            Ok(next) => r is Ok && r->Ok_0 == next,
            Err(e) => r == Err::<usize, ParseError>(e),
        },
        r matches Ok(next) ==> start < next <= tokens.len(),
    decreases tokens.len() - lower, 0nat,
{
    let n: usize = tokens.len();
    let mut pos: usize = start;
    loop
        invariant
            start <= pos <= n,
            lower < start,
            n == tokens.len(),
            type_list(views(tokens@), start as int) == type_list(views(tokens@), pos as int),
        decreases n - pos,
    {
        if pos >= n {
            return Err(ParseError::BadType { at: pos });
        }
        match &tokens[pos] {
            Token::Comma => {
                let (_, p) = consume_whitespace(tokens, pos + 1);
                match get_type(tokens, p) {
                    Err(e) => {
                        return Err(e);
                    },
                    Ok(q) => {
                        let (_, next) = consume_whitespace(tokens, q);
                        pos = next;
                    },
                }
            },
            Token::RCaret => {
                return Ok(pos + 1);
            },
            _ => {
                return Err(ParseError::BadType { at: pos });
            },
        }
    }
}

/// Reads one operand.
pub fn inner_parse(tokens: &Vec<Token>, pos: usize) -> (r: Result<(Syntax, usize), ParseError>)
    ensures
        syntax_result_is(r, atom_at(views(tokens@), pos as int)),
        r matches Ok(t) ==> pos < t.1 <= tokens.len(),
    decreases tokens.len() - pos, 1nat,
{
    broadcast use lemma_models;

    let n: usize = tokens.len();
    if pos >= n {
        return Err(ParseError::UnexpectedEnd);
    }
    match &tokens[pos] {
        Token::String(segments) => Ok((Syntax::String(copy_segments(segments)), pos + 1)),
        Token::Tack | Token::Semicolon => match inner_parse(tokens, pos + 1) {
            Err(e) => Err(e),
            Ok((operand, next)) => Ok(
                (Syntax::UnaryOperation(UnaryOperation::Negate, Box::new(operand)), next),
            ),
        },
        Token::Space(_) => inner_parse(tokens, pos + 1),
        Token::Ident(name) => {
            let (_, p) = consume_whitespace(tokens, pos + 1);
            if text_is(name, "const") || text_is(name, "var") {
                return declare(tokens, p, name);
            }
            assert(views(tokens@)[pos as int] == TokenView::Ident(name@));
            if p < n {
                assert(views(tokens@)[p as int] == tokens@[p as int]@);
                match &tokens[p] {
                    Token::LParen => {
                        let (_, q) = consume_whitespace(tokens, p + 1);
                        return match get_tuple(tokens, q) {
                            Err(e) => Err(e),
                            Ok((arguments, next)) => {
                                proof {
                                    lemma_models(arguments);
                                }
                                let callee = Syntax::Ident(copy_text(name));
                                assert(callee@ == SyntaxView::Ident(name@));
                                Ok((Syntax::Call(Box::new(callee), arguments), next))
                            },
                        };
                    },
                    Token::Colon => {
                        let (_, q) = consume_whitespace(tokens, p + 1);
                        return match get_type(tokens, q) {
                            Err(e) => Err(e),
                            Ok(next) => Ok((Syntax::Ident(copy_text(name)), next)),
                        };
                    },
                    _ => {},
                }
            }
            Ok((Syntax::Ident(copy_text(name)), pos + 1))
        },
        Token::LSquirrely => match parse_block(tokens, pos + 1) {
            Err(e) => Err(e),
            Ok((statements, next)) => {
                proof {
                    lemma_models(statements);
                }
                Ok((Syntax::Block(statements), next))
            },
        },
        Token::LParen => match get_tuple(tokens, pos + 1) {
            Err(e) => Err(e),
            Ok((mut list, next)) => {
                if list.len() == 1 {
                    let ghost only = list@[0]@;
                    match list.pop() {
                        Some(tree) => Ok((tree, next)),
                        None => Err(ParseError::UnexpectedEnd),
                    }
                } else {
                    proof {
                        lemma_models(list);
                    }
                    Ok((Syntax::Block(list), next))
                }
            },
        },
        _ => Err(ParseError::UnexpectedToken { at: pos }),
    }
}

/// Reads a declaration from its second word on.
pub fn declare(tokens: &Vec<Token>, pos: usize, first: &Vec<char>) -> (r: Result<
    (Syntax, usize),
    ParseError,
>)
    ensures
        syntax_result_is(r, declaration_at(views(tokens@), pos as int, first@)),
        r matches Ok(t) ==> pos < t.1 <= tokens.len(),
    decreases tokens.len() - pos, 0nat,
{
    broadcast use lemma_models;

    let n: usize = tokens.len();
    if pos >= n {
        return Err(ParseError::BadDeclaration { at: pos });
    }
    let second: &Vec<char> = match &tokens[pos] {
        Token::Ident(second) => second,
        _ => {
            return Err(ParseError::BadDeclaration { at: pos });
        },
    };
    assert(views(tokens@)[pos as int] == TokenView::Ident(second@));
    if !(text_is(second, "const") || text_is(second, "var")) {
        return Err(ParseError::BadDeclaration { at: pos });
    }
    let vt = var_type_for(first, second);
    assert(vt == var_type_of(first@, views(tokens@)[pos as int]->Ident_0));
    let (_, p1) = consume_whitespace(tokens, pos + 1);
    if p1 >= n {
        return Err(ParseError::BadDeclaration { at: p1 });
    }
    let name: &Vec<char> = match &tokens[p1] {
        Token::Ident(name) => name,
        _ => {
            return Err(ParseError::BadDeclaration { at: p1 });
        },
    };
    assert(views(tokens@)[p1 as int] == TokenView::Ident(name@));
    let (_, p2) = consume_whitespace(tokens, p1 + 1);
    let mut p3: usize = p2;
    if p2 < n {
        if let Token::Colon = &tokens[p2] {
            let (_, q) = consume_whitespace(tokens, p2 + 1);
            match get_type(tokens, q) {
                Err(e) => {
                    return Err(e);
                },
                Ok(after) => {
                    let (_, next) = consume_whitespace(tokens, after);
                    p3 = next;
                },
            }
        }
    }
    if p3 >= n {
        return Err(ParseError::BadDeclaration { at: p3 });
    }
    assert(views(tokens@)[p3 as int] == tokens@[p3 as int]@);
    match &tokens[p3] {
        Token::Bang(count) => {
            let nothing: Vec<Syntax> = Vec::new();
            proof {
                lemma_models(nothing);
                assert(views(nothing@) =~= Seq::empty());
            }
            let value = Syntax::Block(nothing);
            assert(value@ == SyntaxView::Block(Seq::empty()));
            let declaration = Syntax::Declare(vt, copy_text(name), Box::new(value));
            assert(declaration@ == SyntaxView::Declare(vt, name@, Box::new(value@)));
            Ok((Syntax::Statement(false, Box::new(declaration), *count), p3 + 1))
        },
        Token::Equal(count) => {
            if *count != 1 {
                return Err(ParseError::BadDeclaration { at: p3 });
            }
            let (_, q) = consume_whitespace(tokens, p3 + 1);
            match parse_group(tokens, q) {
                Err(e) => Err(e),
                Ok((value, p4)) => {
                    let declaration = Syntax::Declare(vt, copy_text(name), Box::new(value));
                    assert(declaration@ == SyntaxView::Declare(vt, name@, Box::new(value@)));
                    Ok(consume_bang(declaration, tokens, p4))
                },
            }
        },
        _ => Err(ParseError::BadDeclaration { at: p3 }),
    }
}

/// Reads the statements of a block, up to and with its closing `}`.
pub fn parse_block(tokens: &Vec<Token>, start: usize) -> (r: Result<(Vec<Syntax>, usize), ParseError>)
    ensures
        list_result_is(r, block_at(views(tokens@), start as int)),
        r matches Ok(t) ==> start < t.1 <= tokens.len(),
    decreases tokens.len() - start, 4nat,
{
    let n: usize = tokens.len();
    let mut statements: Vec<Syntax> = Vec::new();
    let mut pos: usize = start;
    assert(views(statements@) =~= Seq::empty());
    assert(block_at(views(tokens@), start as int) == prepend_trees(
        Seq::empty(),
        block_at(views(tokens@), start as int),
    )) by {
        if let Ok((rest, _)) = block_at(views(tokens@), start as int) {
            assert(Seq::<SyntaxView>::empty() + rest =~= rest);
        }
    }
    loop
        invariant
            start <= pos,
            pos <= n || pos == start,
            n == tokens.len(),
            block_at(views(tokens@), start as int) == prepend_trees(
                views(statements@),
                block_at(views(tokens@), pos as int),
            ),
        decreases n - pos,
    {
        if pos >= n {
            return Err(ParseError::MissingBrace);
        }
        match &tokens[pos] {
            Token::RSquirrely => {
                assert(views(statements@) + Seq::<SyntaxView>::empty() =~= views(statements@));
                return Ok((statements, pos + 1));
            },
            Token::Space(_) => {
                pos += 1;
            },
            _ => {
                match parse_group(tokens, pos) {
                    Err(e) => {
                        return Err(e);
                    },
                    Ok((tree, p)) => {
                        let ghost done = views(statements@);
                        let (statement, q) = consume_bang(tree, tokens, p);
                        proof {
                            if let Ok((rest, _)) = block_at(views(tokens@), q as int) {
                                assert(done + (seq![statement@] + rest) =~= (done + seq![
                                    statement@,
                                ]) + rest);
                            }
                        }
                        statements.push(statement);
                        assert(views(statements@) =~= done + seq![statement@]);
                        pos = q;
                    },
                }
            },
        }
    }
}

/// Reads the expressions of a list, up to and with its closing `)`.
pub fn get_tuple(tokens: &Vec<Token>, start: usize) -> (r: Result<(Vec<Syntax>, usize), ParseError>)
    ensures
        list_result_is(r, tuple_at(views(tokens@), start as int)),
        r matches Ok(t) ==> start < t.1 <= tokens.len(),
    decreases tokens.len() - start, 4nat,
{
    let n: usize = tokens.len();
    let mut list: Vec<Syntax> = Vec::new();
    let mut pos: usize = start;
    assert(views(list@) =~= Seq::empty());
    assert(tuple_at(views(tokens@), start as int) == prepend_trees(
        Seq::empty(),
        tuple_at(views(tokens@), start as int),
    )) by {
        if let Ok((rest, _)) = tuple_at(views(tokens@), start as int) {
            assert(Seq::<SyntaxView>::empty() + rest =~= rest);
        }
    }
    loop
        invariant
            start <= pos,
            pos <= n || pos == start,
            n == tokens.len(),
            tuple_at(views(tokens@), start as int) == prepend_trees(
                views(list@),
                tuple_at(views(tokens@), pos as int),
            ),
        decreases n - pos,
    {
        if pos >= n {
            return Err(ParseError::MissingParen);
        }
        match &tokens[pos] {
            Token::RParen => {
                assert(views(list@) + Seq::<SyntaxView>::empty() =~= views(list@));
                return Ok((list, pos + 1));
            },
            Token::Comma => {
                let (_, p) = consume_whitespace(tokens, pos + 1);
                pos = p;
            },
            _ => {
                match parse_group(tokens, pos) {
                    Err(e) => {
                        return Err(e);
                    },
                    Ok((tree, p)) => {
                        let ghost done = views(list@);
                        proof {
                            if let Ok((rest, _)) = tuple_at(views(tokens@), p as int) {
                                assert(done + (seq![tree@] + rest) =~= (done + seq![tree@]) + rest);
                            }
                        }
                        list.push(tree);
                        assert(views(list@) =~= done + seq![tree@]);
                        pos = p;
                    },
                }
            },
        }
    }
}

/// Reads one expression: its items, grouped by their white space.
pub fn parse_group(tokens: &Vec<Token>, pos: usize) -> (r: Result<(Syntax, usize), ParseError>)
    ensures
        syntax_result_is(r, group_at(views(tokens@), pos as int)),
        r matches Ok(t) ==> pos < t.1 <= tokens.len(),
    decreases tokens.len() - pos, 3nat,
{
    match fancify_toks(tokens, pos) {
        Err(e) => Err(e),
        Ok((items, next)) => match group(&items) {
            Err(e) => Err(e),
            Ok(tree) => Ok((tree, next)),
        },
    }
}

/// Whether a token ends an expression.
fn ends_group(t: &Token) -> (r: bool)
    ensures
        r == ends_expression(t@),
{
    match t {
        Token::RParen | Token::Bang(_) | Token::Question(_) | Token::RSquare | Token::Comma
        | Token::RSquirrely => true,
        _ => false,
    }
}

/// Whether a tree is a statement.
fn is_statement(tree: &Syntax) -> (r: bool)
    ensures
        r == (tree@ is Statement),
{
    match tree {
        Syntax::Statement(_, _, _) => true,
        _ => false,
    }
}

/// Reads the items of one expression.
pub fn fancify_toks(tokens: &Vec<Token>, start: usize) -> (r: Result<
    (Vec<GroupItem>, usize),
    ParseError,
>)
    ensures
        items_result_is(r, items_at(views(tokens@), start as int)),
        r matches Ok(t) ==> start <= t.1 && (t.1 <= tokens.len() || t.1 == start) && (t.0.len() > 0
            ==> start < t.1 <= tokens.len()),
    decreases tokens.len() - start, 2nat,
{
    let n: usize = tokens.len();
    let mut items: Vec<GroupItem> = Vec::new();
    let mut pos: usize = start;
    assert(views(items@) =~= Seq::empty());
    assert(items_at(views(tokens@), start as int) == prepend_items(
        Seq::empty(),
        items_at(views(tokens@), start as int),
    )) by {
        if let Ok((rest, _)) = items_at(views(tokens@), start as int) {
            assert(Seq::<GroupItemView>::empty() + rest =~= rest);
        }
    }
    loop
        invariant
            start <= pos,
            pos <= n || pos == start,
            items.len() > 0 ==> start < pos,
            n == tokens.len(),
            items_at(views(tokens@), start as int) == prepend_items(
                views(items@),
                items_at(views(tokens@), pos as int),
            ),
        decreases n - pos,
    {
        let ghost done = views(items@);
        let (w, p) = consume_whitespace(tokens, pos);
        if p >= n {
            assert(done + Seq::<GroupItemView>::empty() =~= done);
            return Ok((items, p));
        }
        let token: &Token = &tokens[p];
        let item: GroupItem;
        let next: usize;
        match token {
            Token::TackTack => {
                item = GroupItem::Unary(UnaryOperation::Decrement, w);
                next = p + 1;
            },
            Token::PlusPlus => {
                item = GroupItem::Unary(UnaryOperation::Increment, w);
                next = p + 1;
            },
            _ => {
                if ends_group(token) {
                    assert(done + Seq::<GroupItemView>::empty() =~= done);
                    return Ok((items, p));
                }
                match Operation::from_token(token) {
                    Some(op) => {
                        let (w2, q) = consume_whitespace(tokens, p + 1);
                        item = GroupItem::Operation(op, add_widths(w, w2));
                        next = q;
                    },
                    None => {
                        match inner_parse(tokens, p) {
                            Err(e) => {
                                return Err(e);
                            },
                            Ok((tree, q)) => {
                                if is_statement(&tree) {
                                    let ghost last = GroupItemView::Syntax(tree@, w);
                                    items.push(GroupItem::Syntax(tree, w));
                                    assert(views(items@) =~= done + seq![last]);
                                    return Ok((items, q));
                                }
                                item = GroupItem::Syntax(tree, w);
                                next = q;
                            },
                        }
                    },
                }
            },
        }
        proof {
            if let Ok((rest, _)) = items_at(views(tokens@), next as int) {
                assert(done + (seq![item@] + rest) =~= (done + seq![item@]) + rest);
            }
        }
        items.push(item);
        assert(views(items@) =~= done + seq![item@]);
        pos = next;
    }
}

/// The statements of a list, with those of each block among them in the
/// block's place.
fn flatten_list(list: &Vec<Syntax>) -> (r: Vec<Syntax>)
    ensures
        views(r@) == flatten(views(list@)),
{
    broadcast use lemma_models;

    let mut out: Vec<Syntax> = Vec::new();
    let mut i: usize = 0;
    assert(views(list@).take(0) =~= Seq::empty());
    assert(views(out@) =~= Seq::empty());
    while i < list.len()
        invariant
            i <= list.len(),
            views(out@) == flatten(views(list@).take(i as int)),
        decreases list.len() - i,
    {
        let ghost before = views(out@);
        proof {
            let t = views(list@).take(i + 1);
            assert(t.drop_last() =~= views(list@).take(i as int));
            assert(t.last() == list@[i as int]@);
        }
        match &list[i] {
            Syntax::Block(inner) => {
                proof {
                    lemma_models(*inner);
                }
                let mut j: usize = 0;
                while j < inner.len()
                    invariant
                        j <= inner.len(),
                        views(out@) == before + views(inner@).take(j as int),
                    decreases inner.len() - j,
                {
                    let ghost so_far = views(out@);
                    out.push(inner[j].copy());
                    assert(views(out@) =~= so_far.push(inner@[j as int]@));
                    assert(views(inner@).take(j + 1) =~= views(inner@).take(j as int).push(
                        inner@[j as int]@,
                    ));
                    assert(views(out@) =~= before + views(inner@).take(j + 1));
                    j += 1;
                }
                assert(views(inner@).take(inner.len() as int) =~= views(inner@));
            },
            other => {
                out.push(other.copy());
                assert(views(out@) =~= before + seq![other@]);
            },
        }
        i += 1;
    }
    assert(views(list@).take(list.len() as int) =~= views(list@));
    out
}

/// Tidies the blocks of a tree.
pub fn optimize(syn: &Syntax) -> (r: Syntax)
    ensures
        r@ == optimized(syn@),
    decreases syn,
{
    broadcast use lemma_models;

    match syn {
        Syntax::Declare(vt, name, value) => Syntax::Declare(
            *vt,
            copy_text(name),
            Box::new(optimize(value)),
        ),
        Syntax::Function(params, body) => Syntax::Function(
            copy_texts(params),
            Box::new(optimize(body)),
        ),
        Syntax::Call(callee, arguments) => {
            let c = optimize(callee);
            let mut out: Vec<Syntax> = Vec::new();
            let mut i: usize = 0;
            proof {
                lemma_models(*arguments);
            }
            while i < arguments.len()
                invariant
                    i <= arguments.len(),
                    out@.len() == i,
                    syn is Call,
                    syn->Call_1 == *arguments,
                    forall|j: int| 0 <= j < i ==> out@[j]@ == optimized(arguments@[j]@),
                decreases arguments.len() - i,
            {
                out.push(optimize(&arguments[i]));
                i += 1;
            }
            proof {
                lemma_models(out);
                assert(views(out@) =~= optimized(syn@)->Call_1);
            }
            Syntax::Call(Box::new(c), out)
        },
        Syntax::Operation(lhs, op, rhs) => Syntax::Operation(
            Box::new(optimize(lhs)),
            *op,
            Box::new(optimize(rhs)),
        ),
        Syntax::UnaryOperation(op, operand) => Syntax::UnaryOperation(
            *op,
            Box::new(optimize(operand)),
        ),
        Syntax::Block(inner) => {
            proof {
                lemma_models(*inner);
            }
            let mut flat = flatten_list(inner);
            if flat.len() == 1 {
                match flat.pop() {
                    Some(only) => only,
                    None => Syntax::Block(flat),
                }
            } else {
                proof {
                    lemma_models(flat);
                }
                Syntax::Block(flat)
            }
        },
        Syntax::Statement(is_debug, inner, level) => Syntax::Statement(
            *is_debug,
            Box::new(optimize(inner)),
            *level,
        ),
        Syntax::Ident(_) | Syntax::String(_) => syn.copy(),
    }
}

/// Parses a token list into the tree of the program, which is a block at the
/// top level.
pub fn parse(tokens: Vec<Token>) -> (r: Result<Syntax, ParseError>)
    ensures
        match parsed(views(tokens@)) {
            Ok(tree) => r is Ok && r->Ok_0@ == tree,
            Err(e) => r == Err::<Syntax, ParseError>(e),
        },
        r matches Ok(tree) ==> tree@ is Block,
{
    let n: usize = tokens.len();
    let mut list: Vec<Syntax> = Vec::new();
    let mut pos: usize = 0;
    assert(views(list@) =~= Seq::empty());
    assert(groups_from(views(tokens@), 0) == prepend_trees(
        Seq::empty(),
        groups_from(views(tokens@), 0),
    )) by {
        if let Ok((rest, _)) = groups_from(views(tokens@), 0) {
            assert(Seq::<SyntaxView>::empty() + rest =~= rest);
        }
    }
    while pos < n
        invariant
            pos <= n,
            n == tokens.len(),
            groups_from(views(tokens@), 0) == prepend_trees(
                views(list@),
                groups_from(views(tokens@), pos as int),
            ),
        decreases n - pos,
    {
        match parse_group(&tokens, pos) {
            Err(e) => {
                return Err(e);
            },
            Ok((tree, p)) => {
                let ghost done = views(list@);
                proof {
                    if let Ok((rest, _)) = groups_from(views(tokens@), p as int) {
                        assert(done + (seq![tree@] + rest) =~= (done + seq![tree@]) + rest);
                    }
                }
                list.push(tree);
                assert(views(list@) =~= done + seq![tree@]);
                pos = p;
            },
        }
    }
    assert(views(list@) + Seq::<SyntaxView>::empty() =~= views(list@));
    Ok(program(&list))
}

/// The program that a list of expressions stands for.
pub fn program(list: &Vec<Syntax>) -> (r: Syntax)
    ensures
        r@ == program_of(views(list@)),
{
    let flat = flatten_list(list);
    let mut statements: Vec<Syntax> = Vec::new();
    let mut i: usize = 0;
    while i < flat.len()
        invariant
            i <= flat.len(),
            statements@.len() == i,
            forall|j: int| 0 <= j < i ==> statements@[j]@ == optimized(flat@[j]@),
        decreases flat.len() - i,
    {
        statements.push(optimize(&flat[i]));
        i += 1;
    }
    proof {
        lemma_models(statements);
        assert(views(statements@) =~= optimized_each(views(flat@)));
    }
    Syntax::Block(statements)
}

} // verus!
