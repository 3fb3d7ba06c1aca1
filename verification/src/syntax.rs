//! The syntax tree that the parser produces.

use vstd::prelude::*;
use crate::text::{append, append_str, copy_text, copy_texts, text_eq, texts_eq, views};
use crate::token::{copy_segments, segments_eq, StringSegment, StringSegmentView, Token, TokenView};

verus! {

/// The two axes of a declaration: first whether the name may be bound anew,
/// then whether the value may be changed in place.
#[derive(PartialEq, Eq, Debug, Clone, Copy, Structural)]
pub enum VarType {
    ConstConst,
    ConstVar,
    VarConst,
    VarVar,
}

/// The operators of one operand: negation in front, a step up or down behind.
#[derive(PartialEq, Eq, Debug, Clone, Copy, Structural)]
pub enum UnaryOperation {
    Negate,
    Increment,
    Decrement,
}

/// The operators of two operands.
#[derive(PartialEq, Eq, Debug, Clone, Copy, Structural)]
pub enum Operation {
    /// A run of `=`; one is assignment, more compare with rising strictness.
    Equal(u8),
    Add,
    AddEq,
    Sub,
    SubEq,
    Mul,
    MulEq,
    Div,
    DivEq,
    Mod,
    ModEq,
    Dot,
    And,
    Or,
    Arrow,
    Lt,
    Le,
    Gt,
    Ge,
}

/// A syntax tree.
#[derive(PartialEq, Eq, Debug)]
pub enum Syntax {
    Declare(VarType, Vec<char>, Box<Syntax>),
    Function(Vec<Vec<char>>, Box<Syntax>),
    Call(Box<Syntax>, Vec<Syntax>),
    Operation(Box<Syntax>, Operation, Box<Syntax>),
    UnaryOperation(UnaryOperation, Box<Syntax>),
    Ident(Vec<char>),
    String(Vec<StringSegment>),
    Block(Vec<Syntax>),
    /// An expression closed by a run of `!` or, where the flag is set, of `?`.
    Statement(bool, Box<Syntax>, u8),
}

/// The view of a syntax tree: texts by their characters, lists by their
/// items.
pub ghost enum SyntaxView {
    Declare(VarType, Seq<char>, Box<SyntaxView>),
    Function(Seq<Seq<char>>, Box<SyntaxView>),
    Call(Box<SyntaxView>, Seq<SyntaxView>),
    Operation(Box<SyntaxView>, Operation, Box<SyntaxView>),
    UnaryOperation(UnaryOperation, Box<SyntaxView>),
    Ident(Seq<char>),
    String(Seq<StringSegmentView>),
    Block(Seq<SyntaxView>),
    Statement(bool, Box<SyntaxView>, u8),
}

impl Syntax {
    /// The view of the tree.
    pub open spec fn model(self) -> SyntaxView
        decreases self,
    {
        match self {
            Syntax::Declare(vt, name, value) => SyntaxView::Declare(
                vt,
                name@,
                Box::new((*value).model()),
            ),
            Syntax::Function(params, body) => SyntaxView::Function(
                views(params@),
                Box::new((*body).model()),
            ),
            Syntax::Call(callee, args) => SyntaxView::Call(
                Box::new((*callee).model()),
                Syntax::models(args),
            ),
            Syntax::Operation(lhs, op, rhs) => SyntaxView::Operation(
                Box::new((*lhs).model()),
                op,
                Box::new((*rhs).model()),
            ),
            Syntax::UnaryOperation(op, operand) => SyntaxView::UnaryOperation(
                op,
                Box::new((*operand).model()),
            ),
            Syntax::Ident(name) => SyntaxView::Ident(name@),
            Syntax::String(segments) => SyntaxView::String(views(segments@)),
            Syntax::Block(statements) => SyntaxView::Block(Syntax::models(statements)),
            Syntax::Statement(is_debug, inner, level) => SyntaxView::Statement(
                is_debug,
                Box::new((*inner).model()),
                level,
            ),
        }
    }

    /// The views of the trees of a list.
    pub open spec fn models(list: Vec<Syntax>) -> Seq<SyntaxView>
        decreases list,
    {
        Seq::new(
            list.len() as nat,
            |i: int|
                if 0 <= i < list.len() {
                    list[i].model()
                } else {
                    SyntaxView::Block(Seq::empty())
                },
        )
    }
}

impl View for Syntax {
    type V = SyntaxView;

    open spec fn view(&self) -> SyntaxView {
        self.model()
    }
}

/// The view of a list of trees is the list of their views.
pub broadcast proof fn lemma_models(list: Vec<Syntax>)
    ensures
        #[trigger] Syntax::models(list) == views(list@),
{
    assert(Syntax::models(list) =~= views(list@));
}

/// The operator that a token stands for, if it stands for one.
pub open spec fn operation_of(t: TokenView) -> Option<Operation> {
    match t {
        TokenView::Equal(n) => Some(Operation::Equal(n)),
        TokenView::Plus => Some(Operation::Add),
        TokenView::PlusEq => Some(Operation::AddEq),
        TokenView::Tack => Some(Operation::Sub),
        TokenView::TackEq => Some(Operation::SubEq),
        TokenView::Star => Some(Operation::Mul),
        TokenView::StarEq => Some(Operation::MulEq),
        TokenView::Slash => Some(Operation::Div),
        TokenView::SlashEq => Some(Operation::DivEq),
        TokenView::Percent => Some(Operation::Mod),
        TokenView::PercentEq => Some(Operation::ModEq),
        TokenView::Dot => Some(Operation::Dot),
        TokenView::And => Some(Operation::And),
        TokenView::Or => Some(Operation::Or),
        TokenView::Arrow => Some(Operation::Arrow),
        TokenView::LCaret => Some(Operation::Lt),
        TokenView::LCaretEq => Some(Operation::Le),
        TokenView::RCaret => Some(Operation::Gt),
        TokenView::RCaretEq => Some(Operation::Ge),
        _ => None,
    }
}

/// `n` copies of the character `c`.
pub open spec fn repeated(c: char, n: nat) -> Seq<char> {
    Seq::new(n, |i: int| c)
}

impl VarType {
    /// The two words of the declaration.
    pub open spec fn text_spec(self) -> Seq<char> {
        match self {
            VarType::ConstConst => "const const"@,
            VarType::ConstVar => "const var"@,
            VarType::VarConst => "var const"@,
            VarType::VarVar => "var var"@,
        }
    }

    /// The two words of the declaration.
    pub fn to_text(&self) -> (r: Vec<char>)
        ensures
            r@ == self.text_spec(),
    {
        let mut buf: Vec<char> = Vec::new();
        match self {
            VarType::ConstConst => append_str(&mut buf, "const const"),
            VarType::ConstVar => append_str(&mut buf, "const var"),
            VarType::VarConst => append_str(&mut buf, "var const"),
            VarType::VarVar => append_str(&mut buf, "var var"),
        }
        assert(buf@ =~= self.text_spec());
        buf
    }

    /// Whether a name declared so may be assigned to.
    pub open spec fn binding_var(self) -> bool {
        self == VarType::VarConst || self == VarType::VarVar
    }

    /// Whether a value declared so may be changed in place.
    pub open spec fn cell_var(self) -> bool {
        self == VarType::ConstVar || self == VarType::VarVar
    }
}

impl Operation {
    /// The operator as it is written.
    pub open spec fn text_spec(self) -> Seq<char> {
        match self {
            Operation::Equal(n) => repeated('=', n as nat),
            Operation::Add => "+"@,
            Operation::AddEq => "+="@,
            Operation::Sub => "-"@,
            Operation::SubEq => "-="@,
            Operation::Mul => "*"@,
            Operation::MulEq => "*="@,
            Operation::Div => "/"@,
            Operation::DivEq => "/="@,
            Operation::Mod => "%"@,
            Operation::ModEq => "%="@,
            Operation::Dot => "."@,
            Operation::And => "&&"@,
            Operation::Or => "||"@,
            Operation::Arrow => "->"@,
            Operation::Lt => "<"@,
            Operation::Le => "<="@,
            Operation::Gt => ">"@,
            Operation::Ge => ">="@,
        }
    }

    /// The operator as it is written.
    pub fn to_text(&self) -> (r: Vec<char>)
        ensures
            r@ == self.text_spec(),
    {
        let mut buf: Vec<char> = Vec::new();
        match self {
            Operation::Equal(n) => push_repeated(&mut buf, '=', *n),
            Operation::Add => append_str(&mut buf, "+"),
            Operation::AddEq => append_str(&mut buf, "+="),
            Operation::Sub => append_str(&mut buf, "-"),
            Operation::SubEq => append_str(&mut buf, "-="),
            Operation::Mul => append_str(&mut buf, "*"),
            Operation::MulEq => append_str(&mut buf, "*="),
            Operation::Div => append_str(&mut buf, "/"),
            Operation::DivEq => append_str(&mut buf, "/="),
            Operation::Mod => append_str(&mut buf, "%"),
            Operation::ModEq => append_str(&mut buf, "%="),
            Operation::Dot => append_str(&mut buf, "."),
            Operation::And => append_str(&mut buf, "&&"),
            Operation::Or => append_str(&mut buf, "||"),
            Operation::Arrow => append_str(&mut buf, "->"),
            Operation::Lt => append_str(&mut buf, "<"),
            Operation::Le => append_str(&mut buf, "<="),
            Operation::Gt => append_str(&mut buf, ">"),
            Operation::Ge => append_str(&mut buf, ">="),
        }
        assert(buf@ =~= self.text_spec());
        buf
    }

    /// The operator that a token stands for, if it stands for one.
    pub fn from_token(t: &Token) -> (r: Option<Operation>)
        ensures
            r == operation_of(t@),
    {
        match t {
            Token::Equal(n) => Some(Operation::Equal(*n)),
            Token::Plus => Some(Operation::Add),
            Token::PlusEq => Some(Operation::AddEq),
            Token::Tack => Some(Operation::Sub),
            Token::TackEq => Some(Operation::SubEq),
            Token::Star => Some(Operation::Mul),
            Token::StarEq => Some(Operation::MulEq),
            Token::Slash => Some(Operation::Div),
            Token::SlashEq => Some(Operation::DivEq),
            Token::Percent => Some(Operation::Mod),
            Token::PercentEq => Some(Operation::ModEq),
            Token::Dot => Some(Operation::Dot),
            Token::And => Some(Operation::And),
            Token::Or => Some(Operation::Or),
            Token::Arrow => Some(Operation::Arrow),
            Token::LCaret => Some(Operation::Lt),
            Token::LCaretEq => Some(Operation::Le),
            Token::RCaret => Some(Operation::Gt),
            Token::RCaretEq => Some(Operation::Ge),
            _ => None,
        }
    }
}

/// Appends `n` copies of `c` to `buf`.
pub fn push_repeated(buf: &mut Vec<char>, c: char, n: u8)
    ensures
        final(buf)@ == old(buf)@ + repeated(c, n as nat),
{
    let mut i: u8 = 0;
    assert(buf@ =~= old(buf)@ + repeated(c, 0));
    while i < n
        invariant
            i <= n,
            buf@ == old(buf)@ + repeated(c, i as nat),
        decreases n - i,
    {
        buf.push(c);
        assert(buf@ =~= old(buf)@ + repeated(c, (i + 1) as nat));
        i += 1;
    }
}

/// The text of one piece of a string literal.
pub open spec fn segment_text(s: StringSegmentView) -> Seq<char> {
    match s {
        StringSegmentView::Ident(name) => seq!['$', '{'] + name + seq!['}'],
        StringSegmentView::String(text) => text,
    }
}

/// The text of the pieces of a string literal, in a row.
pub open spec fn segments_text(list: Seq<StringSegmentView>) -> Seq<char>
    decreases list.len(),
{
    if list.len() == 0 {
        Seq::empty()
    } else {
        segments_text(list.drop_last()) + segment_text(list.last())
    }
}

/// The names of a parameter list, each in double quotes, with `, ` between.
pub open spec fn names_text(list: Seq<Seq<char>>) -> Seq<char>
    decreases list.len(),
{
    if list.len() == 0 {
        Seq::empty()
    } else if list.len() == 1 {
        "\""@ + list[0] + "\""@
    } else {
        names_text(list.drop_last()) + ", "@ + "\""@ + list.last() + "\""@
    }
}

/// The source-like text of a tree.
pub open spec fn syntax_text(s: SyntaxView) -> Seq<char>
    decreases s,
{
    match s {
        SyntaxView::Statement(is_debug, inner, level) => syntax_text(*inner) + repeated(
            if is_debug { '?' } else { '!' },
            level as nat,
        ),
        SyntaxView::Call(callee, args) => syntax_text(*callee) + "("@ + arguments_text(args)
            + ")"@,
        SyntaxView::Block(statements) => "{"@ + statements_text(statements) + "}"@,
        SyntaxView::String(segments) => "\""@ + segments_text(segments) + "\""@,
        SyntaxView::Ident(name) => name,
        SyntaxView::Declare(vt, name, value) => vt.text_spec() + " "@ + name + " = "@
            + syntax_text(*value),
        SyntaxView::Operation(lhs, op, rhs) => "("@ + syntax_text(*lhs) + op.text_spec()
            + syntax_text(*rhs) + ")"@,
        SyntaxView::UnaryOperation(op, operand) => match op {
            UnaryOperation::Negate => ";"@ + syntax_text(*operand),
            UnaryOperation::Increment => syntax_text(*operand) + "++"@,
            UnaryOperation::Decrement => syntax_text(*operand) + "--"@,
        },
        SyntaxView::Function(params, body) => "["@ + names_text(params) + "] -> "@
            + syntax_text(*body),
    }
}

/// The texts of the statements of a block, each followed by a space.
pub open spec fn statements_text(list: Seq<SyntaxView>) -> Seq<char>
    decreases list,
{
    if list.len() == 0 {
        Seq::empty()
    } else {
        statements_text(list.drop_last()) + syntax_text(list.last()) + " "@
    }
}

/// The texts of the arguments of a call, with `, ` between.
pub open spec fn arguments_text(list: Seq<SyntaxView>) -> Seq<char>
    decreases list,
{
    if list.len() == 0 {
        Seq::empty()
    } else if list.len() == 1 {
        syntax_text(list[0])
    } else {
        arguments_text(list.drop_last()) + ", "@ + syntax_text(list.last())
    }
}

/// Appends the text of a list of string pieces.
pub fn write_segments(buf: &mut Vec<char>, list: &Vec<StringSegment>)
    ensures
        final(buf)@ == old(buf)@ + segments_text(views(list@)),
{
    let mut i: usize = 0;
    assert(views(list@).take(0) =~= Seq::empty());
    while i < list.len()
        invariant
            i <= list.len(),
            buf@ == old(buf)@ + segments_text(views(list@).take(i as int)),
        decreases list.len() - i,
    {
        let ghost before = buf@;
        match &list[i] {
            StringSegment::Ident(name) => {
                buf.push('$');
                buf.push('{');
                append(buf, name);
                buf.push('}');
            },
            StringSegment::String(text) => {
                append(buf, text);
            },
        }
        proof {
            let t = views(list@).take(i + 1);
            assert(t.drop_last() =~= views(list@).take(i as int));
            assert(t.last() == list@[i as int]@);
            assert(buf@ =~= before + segment_text(list@[i as int]@));
            assert(buf@ =~= old(buf)@ + segments_text(t));
        }
        i += 1;
    }
    assert(views(list@).take(list.len() as int) =~= views(list@));
}

/// Appends the quoted names of a parameter list.
pub fn write_names(buf: &mut Vec<char>, list: &Vec<Vec<char>>)
    ensures
        final(buf)@ == old(buf)@ + names_text(views(list@)),
{
    let mut i: usize = 0;
    assert(views(list@).take(0) =~= Seq::empty());
    while i < list.len()
        invariant
            i <= list.len(),
            buf@ == old(buf)@ + names_text(views(list@).take(i as int)),
        decreases list.len() - i,
    {
        let ghost before = buf@;
        if i > 0 {
            append_str(buf, ", ");
        }
        append_str(buf, "\"");
        append(buf, &list[i]);
        append_str(buf, "\"");
        proof {
            let t = views(list@).take(i + 1);
            assert(t.drop_last() =~= views(list@).take(i as int));
            assert(t.last() == list@[i as int]@);
            if i == 0 {
                assert(t[0] == list@[0]@);
                assert(buf@ =~= old(buf)@ + names_text(t));
            } else {
                assert(buf@ =~= before + ", "@ + "\""@ + list@[i as int]@ + "\""@);
                assert(buf@ =~= old(buf)@ + names_text(t));
            }
        }
        i += 1;
    }
    assert(views(list@).take(list.len() as int) =~= views(list@));
}

impl Syntax {
    /// A deep copy of the tree.
    pub fn copy(&self) -> (r: Syntax)
        ensures
            r@ == self@,
        decreases self,
    {
        broadcast use lemma_models;

        match self {
            Syntax::Declare(vt, name, value) => Syntax::Declare(
                *vt,
                copy_text(name),
                Box::new(value.copy()),
            ),
            Syntax::Function(params, body) => Syntax::Function(
                copy_texts(params),
                Box::new(body.copy()),
            ),
            Syntax::Call(callee, args) => {
                let c = callee.copy();
                let mut out: Vec<Syntax> = Vec::new();
                let mut i: usize = 0;
                while i < args.len()
                    invariant
                        i <= args.len(),
                        out@.len() == i,
                        self is Call,
                        self->Call_1 == *args,
                        forall|j: int| 0 <= j < i ==> out@[j]@ == args@[j]@,
                    decreases args.len() - i,
                {
                    out.push(args[i].copy());
                    i += 1;
                }
                assert(views(out@) =~= views(args@));
                proof {
                    lemma_models(out);
                    lemma_models(*args);
                }
                Syntax::Call(Box::new(c), out)
            },
            Syntax::Operation(lhs, op, rhs) => Syntax::Operation(
                Box::new(lhs.copy()),
                *op,
                Box::new(rhs.copy()),
            ),
            Syntax::UnaryOperation(op, operand) => Syntax::UnaryOperation(
                *op,
                Box::new(operand.copy()),
            ),
            Syntax::Ident(name) => Syntax::Ident(copy_text(name)),
            Syntax::String(segments) => Syntax::String(copy_segments(segments)),
            Syntax::Block(statements) => {
                let mut out: Vec<Syntax> = Vec::new();
                let mut i: usize = 0;
                while i < statements.len()
                    invariant
                        i <= statements.len(),
                        out@.len() == i,
                        self is Block,
                        self->Block_0 == *statements,
                        forall|j: int| 0 <= j < i ==> out@[j]@ == statements@[j]@,
                    decreases statements.len() - i,
                {
                    out.push(statements[i].copy());
                    i += 1;
                }
                assert(views(out@) =~= views(statements@));
                proof {
                    lemma_models(out);
                    lemma_models(*statements);
                }
                Syntax::Block(out)
            },
            Syntax::Statement(is_debug, inner, level) => Syntax::Statement(
                *is_debug,
                Box::new(inner.copy()),
                *level,
            ),
        }
    }

    /// Whether two trees are the same tree.
    pub fn same(&self, other: &Syntax) -> (r: bool)
        ensures
            r == (self@ == other@),
        decreases self,
    {
        broadcast use lemma_models;

        match (self, other) {
            (Syntax::Declare(vt, name, value), Syntax::Declare(vt2, name2, value2)) => {
                *vt == *vt2 && text_eq(name, name2) && value.same(value2)
            },
            (Syntax::Function(params, body), Syntax::Function(params2, body2)) => {
                texts_eq(params, params2) && body.same(body2)
            },
            (Syntax::Call(callee, args), Syntax::Call(callee2, args2)) => {
                proof {
                    lemma_models(*args);
                    lemma_models(*args2);
                }
                if !callee.same(callee2) {
                    return false;
                }
                if args.len() != args2.len() {
                    assert(views(args@).len() != views(args2@).len());
                    return false;
                }
                let mut i: usize = 0;
                while i < args.len()
                    invariant
                        i <= args.len(),
                        args.len() == args2.len(),
                        self is Call,
                        self->Call_1 == *args,
                        self@->Call_1 == views(args@),
                        other@ is Call,
                        other@->Call_1 == views(args2@),
                        forall|j: int| 0 <= j < i ==> args@[j]@ == args2@[j]@,
                    decreases args.len() - i,
                {
                    if !args[i].same(&args2[i]) {
                        assert(views(args@)[i as int] != views(args2@)[i as int]);
                        return false;
                    }
                    i += 1;
                }
                assert(views(args@) =~= views(args2@));
                true
            },
            (Syntax::Operation(lhs, op, rhs), Syntax::Operation(lhs2, op2, rhs2)) => {
                *op == *op2 && lhs.same(lhs2) && rhs.same(rhs2)
            },
            (Syntax::UnaryOperation(op, operand), Syntax::UnaryOperation(op2, operand2)) => {
                *op == *op2 && operand.same(operand2)
            },
            (Syntax::Ident(name), Syntax::Ident(name2)) => text_eq(name, name2),
            (Syntax::String(segments), Syntax::String(segments2)) => segments_eq(
                segments,
                segments2,
            ),
            (Syntax::Block(statements), Syntax::Block(statements2)) => {
                proof {
                    lemma_models(*statements);
                    lemma_models(*statements2);
                }
                if statements.len() != statements2.len() {
                    assert(views(statements@).len() != views(statements2@).len());
                    return false;
                }
                let mut i: usize = 0;
                while i < statements.len()
                    invariant
                        i <= statements.len(),
                        statements.len() == statements2.len(),
                        self is Block,
                        self->Block_0 == *statements,
                        self@->Block_0 == views(statements@),
                        other@ is Block,
                        other@->Block_0 == views(statements2@),
                        forall|j: int| 0 <= j < i ==> statements@[j]@ == statements2@[j]@,
                    decreases statements.len() - i,
                {
                    if !statements[i].same(&statements2[i]) {
                        assert(views(statements@)[i as int] != views(statements2@)[i as int]);
                        return false;
                    }
                    i += 1;
                }
                assert(views(statements@) =~= views(statements2@));
                true
            },
            (
                Syntax::Statement(is_debug, inner, level),
                Syntax::Statement(is_debug2, inner2, level2),
            ) => { *is_debug == *is_debug2 && *level == *level2 && inner.same(inner2) },
            _ => false,
        }
    }

    /// Appends the source-like text of the tree to `buf`.
    pub fn write_text(&self, buf: &mut Vec<char>)
        ensures
            final(buf)@ == old(buf)@ + syntax_text(self@),
        decreases self,
    {
        broadcast use lemma_models;

        match self {
            Syntax::Statement(is_debug, inner, level) => {
                inner.write_text(buf);
                push_repeated(buf, if *is_debug { '?' } else { '!' }, *level);
                assert(buf@ =~= old(buf)@ + syntax_text(self@));
            },
            Syntax::Call(callee, args) => {
                callee.write_text(buf);
                append_str(buf, "(");
                let ghost start = buf@;
                let mut i: usize = 0;
                assert(views(args@).take(0) =~= Seq::empty());
                while i < args.len()
                    invariant
                        i <= args.len(),
                        self is Call,
                        self->Call_1 == *args,
                        buf@ == start + arguments_text(views(args@).take(i as int)),
                    decreases args.len() - i,
                {
                    let ghost before = buf@;
                    if i > 0 {
                        append_str(buf, ", ");
                    }
                    args[i].write_text(buf);
                    proof {
                        let t = views(args@).take(i + 1);
                        assert(t.drop_last() =~= views(args@).take(i as int));
                        assert(t.last() == args@[i as int]@);
                        if i == 0 {
                            assert(t[0] == args@[0]@);
                            assert(buf@ =~= start + arguments_text(t));
                        } else {
                            assert(buf@ =~= before + ", "@ + syntax_text(args@[i as int]@));
                            assert(buf@ =~= start + arguments_text(t));
                        }
                    }
                    i += 1;
                }
                assert(views(args@).take(args.len() as int) =~= views(args@));
                proof {
                    lemma_models(*args);
                }
                append_str(buf, ")");
                assert(buf@ =~= old(buf)@ + syntax_text(self@));
            },
            Syntax::Block(statements) => {
                append_str(buf, "{");
                let ghost start = buf@;
                let mut i: usize = 0;
                assert(views(statements@).take(0) =~= Seq::empty());
                while i < statements.len()
                    invariant
                        i <= statements.len(),
                        self is Block,
                        self->Block_0 == *statements,
                        buf@ == start + statements_text(views(statements@).take(i as int)),
                    decreases statements.len() - i,
                {
                    statements[i].write_text(buf);
                    append_str(buf, " ");
                    proof {
                        let t = views(statements@).take(i + 1);
                        assert(t.drop_last() =~= views(statements@).take(i as int));
                        assert(t.last() == statements@[i as int]@);
                        assert(buf@ =~= start + statements_text(t));
                    }
                    i += 1;
                }
                assert(views(statements@).take(statements.len() as int) =~= views(statements@));
                proof {
                    lemma_models(*statements);
                }
                append_str(buf, "}");
                assert(buf@ =~= old(buf)@ + syntax_text(self@));
            },
            Syntax::String(segments) => {
                append_str(buf, "\"");
                write_segments(buf, segments);
                append_str(buf, "\"");
                assert(buf@ =~= old(buf)@ + syntax_text(self@));
            },
            Syntax::Ident(name) => {
                append(buf, name);
            },
            Syntax::Declare(vt, name, value) => {
                let t = vt.to_text();
                append(buf, &t);
                append_str(buf, " ");
                append(buf, name);
                append_str(buf, " = ");
                value.write_text(buf);
                assert(buf@ =~= old(buf)@ + syntax_text(self@));
            },
            Syntax::Operation(lhs, op, rhs) => {
                append_str(buf, "(");
                lhs.write_text(buf);
                let t = op.to_text();
                append(buf, &t);
                rhs.write_text(buf);
                append_str(buf, ")");
                assert(buf@ =~= old(buf)@ + syntax_text(self@));
            },
            Syntax::UnaryOperation(op, operand) => {
                match op {
                    UnaryOperation::Negate => {
                        append_str(buf, ";");
                        operand.write_text(buf);
                    },
                    UnaryOperation::Increment => {
                        operand.write_text(buf);
                        append_str(buf, "++");
                    },
                    UnaryOperation::Decrement => {
                        operand.write_text(buf);
                        append_str(buf, "--");
                    },
                }
                assert(buf@ =~= old(buf)@ + syntax_text(self@));
            },
            Syntax::Function(params, body) => {
                append_str(buf, "[");
                write_names(buf, params);
                append_str(buf, "] -> ");
                body.write_text(buf);
                assert(buf@ =~= old(buf)@ + syntax_text(self@));
            },
        }
    }

    /// The source-like text of the tree.
    pub fn to_text(&self) -> (r: Vec<char>)
        ensures
            r@ == syntax_text(self@),
    {
        let mut buf: Vec<char> = Vec::new();
        self.write_text(&mut buf);
        assert(buf@ =~= syntax_text(self@));
        buf
    }
}

impl Clone for Syntax {
    /// A deep copy.
    fn clone(&self) -> (r: Self)
        ensures
            r@ == self@,
    {
        self.copy()
    }
}

/// A fresh copy of a list of trees.
pub fn copy_syntaxes(a: &Vec<Syntax>) -> (r: Vec<Syntax>)
    ensures
        views(r@) == views(a@),
{
    let mut r: Vec<Syntax> = Vec::new();
    let mut i: usize = 0;
    while i < a.len()
        invariant
            i <= a.len(),
            r@.len() == i,
            forall|j: int| 0 <= j < i ==> r@[j]@ == a@[j]@,
        decreases a.len() - i,
    {
        r.push(a[i].copy());
        i += 1;
    }
    assert(views(r@) =~= views(a@));
    r
}

/// Whether two lists of trees hold the same trees in the same order.
pub fn syntaxes_eq(a: &Vec<Syntax>, b: &Vec<Syntax>) -> (r: bool)
    ensures
        r == (views(a@) == views(b@)),
{
    if a.len() != b.len() {
        assert(views(a@).len() != views(b@).len());
        return false;
    }
    let mut i: usize = 0;
    while i < a.len()
        invariant
            i <= a.len(),
            a.len() == b.len(),
            forall|j: int| 0 <= j < i ==> a@[j]@ == b@[j]@,
        decreases a.len() - i,
    {
        if !a[i].same(&b[i]) {
            assert(views(a@)[i as int] != views(b@)[i as int]);
            return false;
        }
        i += 1;
    }
    assert(views(a@) =~= views(b@));
    true
}

} // verus!
