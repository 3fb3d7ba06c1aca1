//! The values of the language and their algebra.

use vstd::prelude::*;
use crate::number::{Number, SCALE};
use crate::pointer::Pointer;
use crate::syntax::{
    copy_syntaxes,
    names_text,
    statements_text,
    syntax_text,
    syntaxes_eq,
    write_names,
    Syntax,
    SyntaxView,
};
use crate::text::{
    append,
    append_str,
    copy_text,
    copy_texts,
    lowercase_of,
    reversed,
    text_eq,
    texts_eq,
    to_lowercase,
    trim,
    trimmed,
    views,
};

verus! {

/// A truth value. `Maybe` is its own negation.
#[derive(Debug, Clone, Copy, PartialEq, Eq, Structural)]
pub enum Boolean {
    True,
    False,
    Maybe,
}

/// The words of the language that are values of their own.
#[derive(Debug, Clone, Copy, PartialEq, Eq, Structural)]
pub enum Keyword {
    Class,
    Const,
    Current,
    Delete,
    Eval,
    Forget,
    Function,
    If,
    New,
    Next,
    Previous,
    Var,
    When,
}

/// One entry of an object: a key and the binding it names.
#[derive(Debug, PartialEq, Eq)]
pub struct Member {
    pub key: Value,
    pub pointer: Pointer,
}

/// The view of an entry: the key by its view.
pub ghost struct MemberView {
    pub key: ValueView,
    pub pointer: Pointer,
}

/// A value. The object without entries is the undefined value.
#[derive(Debug, PartialEq, Eq)]
pub enum Value {
    Boolean(Boolean),
    String(Vec<char>),
    Number(Number),
    /// The entries in the order in which they were added.
    Object(Vec<Member>),
    Function(Vec<Vec<char>>, Syntax),
    /// The statements of a class body, kept to be run by `new`.
    Class(Vec<Syntax>),
    Keyword(Keyword),
}

/// The view of a value: texts by their characters, lists by their items.
pub ghost enum ValueView {
    Boolean(Boolean),
    String(Seq<char>),
    Number(Number),
    Object(Seq<MemberView>),
    Function(Seq<Seq<char>>, SyntaxView),
    Class(Seq<SyntaxView>),
    Keyword(Keyword),
}

impl Value {
    /// The view of the value.
    pub open spec fn model(self) -> ValueView
        decreases self,
    {
        match self {
            Value::Boolean(b) => ValueView::Boolean(b),
            Value::String(s) => ValueView::String(s@),
            Value::Number(n) => ValueView::Number(n),
            Value::Object(members) => ValueView::Object(Value::member_models(members)),
            Value::Function(params, body) => ValueView::Function(views(params@), body@),
            Value::Class(body) => ValueView::Class(views(body@)),
            Value::Keyword(k) => ValueView::Keyword(k),
        }
    }

    /// The views of the entries of a list.
    pub open spec fn member_models(members: Vec<Member>) -> Seq<MemberView>
        decreases members,
    {
        Seq::new(
            members.len() as nat,
            |i: int|
                if 0 <= i < members.len() {
                    MemberView { key: members[i].key.model(), pointer: members[i].pointer }
                } else {
                    MemberView { key: ValueView::Object(Seq::empty()), pointer: members[i].pointer }
                },
        )
    }
}

impl View for Value {
    type V = ValueView;

    open spec fn view(&self) -> ValueView {
        self.model()
    }
}

impl View for Member {
    type V = MemberView;

    open spec fn view(&self) -> MemberView {
        MemberView { key: self.key@, pointer: self.pointer }
    }
}

/// The view of a list of entries is the list of their views.
pub broadcast proof fn lemma_member_models(members: Vec<Member>)
    ensures
        #[trigger] Value::member_models(members) == views(members@),
{
    assert(Value::member_models(members) =~= views(members@));
}

impl Boolean {
    /// The truth value as it is written.
    pub open spec fn text_spec(self) -> Seq<char> {
        match self {
            Boolean::True => "true"@,
            Boolean::False => "false"@,
            Boolean::Maybe => "maybe"@,
        }
    }

    /// The truth value of a machine truth value.
    pub open spec fn of(b: bool) -> Boolean {
        if b {
            Boolean::True
        } else {
            Boolean::False
        }
    }

    /// The truth value of a machine truth value.
    pub fn from(b: bool) -> (r: Boolean)
        ensures
            r == Boolean::of(b),
    {
        if b {
            Boolean::True
        } else {
            Boolean::False
        }
    }

    /// True for false and false for true; maybe stays maybe.
    pub open spec fn not_spec(self) -> Boolean {
        match self {
            Boolean::True => Boolean::False,
            Boolean::False => Boolean::True,
            Boolean::Maybe => Boolean::Maybe,
        }
    }

    /// False wins, then two trues make true, anything else is maybe.
    pub open spec fn and_spec(self, other: Boolean) -> Boolean {
        if self == Boolean::False || other == Boolean::False {
            Boolean::False
        } else if self == Boolean::True && other == Boolean::True {
            Boolean::True
        } else {
            Boolean::Maybe
        }
    }

    /// True wins, then two falses make false, anything else is maybe.
    pub open spec fn or_spec(self, other: Boolean) -> Boolean {
        if self == Boolean::True || other == Boolean::True {
            Boolean::True
        } else if self == Boolean::False && other == Boolean::False {
            Boolean::False
        } else {
            Boolean::Maybe
        }
    }

    /// The number that a truth value counts as in a sum.
    pub open spec fn number_spec(self) -> Number {
        match self {
            Boolean::False => Number::zero(),
            Boolean::Maybe => Number::Finite { negative: false, magnitude: 500_000_000 },
            Boolean::True => Number::Finite { negative: false, magnitude: SCALE },
        }
    }

    /// The truth value as it is written.
    pub fn to_text(&self) -> (r: Vec<char>)
        ensures
            r@ == self.text_spec(),
    {
        let mut buf: Vec<char> = Vec::new();
        match self {
            Boolean::True => append_str(&mut buf, "true"),
            Boolean::False => append_str(&mut buf, "false"),
            Boolean::Maybe => append_str(&mut buf, "maybe"),
        }
        assert(buf@ =~= self.text_spec());
        buf
    }

    /// True for false and false for true; maybe stays maybe.
    pub fn not(&self) -> (r: Boolean)
        ensures
            r == self.not_spec(),
    {
        match self {
            Boolean::True => Boolean::False,
            Boolean::False => Boolean::True,
            Boolean::Maybe => Boolean::Maybe,
        }
    }

    /// False wins, then two trues make true, anything else is maybe.
    pub fn and(&self, other: &Boolean) -> (r: Boolean)
        ensures
            r == self.and_spec(*other),
    {
        match (self, other) {
            (Boolean::False, _) | (_, Boolean::False) => Boolean::False,
            (Boolean::True, Boolean::True) => Boolean::True,
            _ => Boolean::Maybe,
        }
    }

    /// True wins, then two falses make false, anything else is maybe.
    pub fn or(&self, other: &Boolean) -> (r: Boolean)
        ensures
            r == self.or_spec(*other),
    {
        match (self, other) {
            (Boolean::True, _) | (_, Boolean::True) => Boolean::True,
            (Boolean::False, Boolean::False) => Boolean::False,
            _ => Boolean::Maybe,
        }
    }

    /// The number that the truth value counts as in a sum.
    pub fn to_number(&self) -> (r: Number)
        ensures
            r == self.number_spec(),
    {
        match self {
            Boolean::False => Number::nought(),
            Boolean::Maybe => Number::half(),
            Boolean::True => Number::one(),
        }
    }
}

impl Keyword {
    /// The keyword as it is written.
    pub open spec fn text_spec(self) -> Seq<char> {
        match self {
            Keyword::Class => "class"@,
            Keyword::Const => "const"@,
            Keyword::Current => "current"@,
            Keyword::Delete => "delete"@,
            Keyword::Eval => "eval"@,
            Keyword::Forget => "forget"@,
            Keyword::Function => "function"@,
            Keyword::If => "if"@,
            Keyword::New => "new"@,
            Keyword::Next => "next"@,
            Keyword::Previous => "previous"@,
            Keyword::Var => "var"@,
            Keyword::When => "when"@,
        }
    }

    /// The keyword as it is written.
    pub fn to_text(&self) -> (r: Vec<char>)
        ensures
            r@ == self.text_spec(),
    {
        let mut buf: Vec<char> = Vec::new();
        match self {
            Keyword::Class => append_str(&mut buf, "class"),
            Keyword::Const => append_str(&mut buf, "const"),
            Keyword::Current => append_str(&mut buf, "current"),
            Keyword::Delete => append_str(&mut buf, "delete"),
            Keyword::Eval => append_str(&mut buf, "eval"),
            Keyword::Forget => append_str(&mut buf, "forget"),
            Keyword::Function => append_str(&mut buf, "function"),
            Keyword::If => append_str(&mut buf, "if"),
            Keyword::New => append_str(&mut buf, "new"),
            Keyword::Next => append_str(&mut buf, "next"),
            Keyword::Previous => append_str(&mut buf, "previous"),
            Keyword::Var => append_str(&mut buf, "var"),
            Keyword::When => append_str(&mut buf, "when"),
        }
        assert(buf@ =~= self.text_spec());
        buf
    }
}

/// The undefined value: the object without entries.
pub open spec fn undefined() -> ValueView {
    ValueView::Object(Seq::empty())
}

/// The text of a value, as it is printed and joined to strings.
pub open spec fn value_text(v: ValueView) -> Seq<char>
    decreases v,
{
    match v {
        ValueView::Boolean(b) => b.text_spec(),
        ValueView::String(s) => s,
        ValueView::Number(n) => n.text_spec(),
        ValueView::Object(members) => if members.len() == 0 {
            "undefined"@
        } else {
            "{"@ + keys_text(members) + "}"@
        },
        ValueView::Function(params, body) => "["@ + names_text(params) + "] => "@ + syntax_text(
            body,
        ),
        ValueView::Class(body) => "class {"@ + statements_text(body) + "}"@,
        ValueView::Keyword(k) => k.text_spec(),
    }
}

/// The texts of the keys of an object, with `, ` between.
pub open spec fn keys_text(members: Seq<MemberView>) -> Seq<char>
    decreases members,
{
    if members.len() == 0 {
        Seq::empty()
    } else if members.len() == 1 {
        value_text(members[0].key)
    } else {
        keys_text(members.drop_last()) + ", "@ + value_text(members.last().key)
    }
}

/// The truth value of a value.
pub open spec fn truth(v: ValueView) -> Boolean {
    match v {
        ValueView::Boolean(b) => b,
        ValueView::Number(n) => n.truth_spec(),
        ValueView::String(s) => if s.len() == 0 {
            Boolean::False
        } else {
            Boolean::True
        },
        _ => Boolean::Maybe,
    }
}

/// The value of a number that may be missing: the undefined value where it is.
pub open spec fn number_or_undefined(n: Option<Number>) -> ValueView {
    match n {
        Some(n) => ValueView::Number(n),
        None => undefined(),
    }
}

/// `k` copies of `s` in a row.
pub open spec fn repeat_text(s: Seq<char>, k: nat) -> Seq<char>
    decreases k,
{
    if k == 0 {
        Seq::empty()
    } else {
        repeat_text(s, (k - 1) as nat) + s
    }
}

/// How many characters of `s` the fraction `f` billionths stands for.
pub open spec fn portion(s: Seq<char>, f: nat) -> nat {
    (f * s.len()) / (SCALE as nat)
}

/// A string times a number: the string as often as the whole part of the
/// number says, then the part of it that the fraction stands for; read back
/// to front where the number is negative. Undefined for an infinity, and
/// where the length of the result is no machine index.
pub open spec fn string_times(s: Seq<char>, n: Number) -> ValueView {
    match n.whole_spec() {
        None => undefined(),
        Some(whole) => {
            let total = whole * s.len() + portion(s, n.fraction_spec());
            if total > usize::MAX as nat {
                undefined()
            } else {
                let forward = repeat_text(s, whole) + s.take(portion(s, n.fraction_spec()) as int);
                ValueView::String(if n.is_negative() { forward.reverse() } else { forward })
            }
        },
    }
}

/// The sum of two numbers, or of a truth value and a number; a string with
/// the text of the right side behind it; undefined for anything else.
pub open spec fn add_spec(a: ValueView, b: ValueView) -> ValueView {
    match (a, b) {
        (ValueView::Number(x), ValueView::Number(y)) => number_or_undefined(x.add_spec(y)),
        (ValueView::Boolean(t), ValueView::Number(y)) => number_or_undefined(
            t.number_spec().add_spec(y),
        ),
        (ValueView::Number(x), ValueView::Boolean(t)) => number_or_undefined(
            t.number_spec().add_spec(x),
        ),
        (ValueView::String(s), other) => ValueView::String(s + value_text(other)),
        _ => undefined(),
    }
}

/// The difference of two numbers; undefined for anything else.
pub open spec fn sub_spec(a: ValueView, b: ValueView) -> ValueView {
    match (a, b) {
        (ValueView::Number(x), ValueView::Number(y)) => number_or_undefined(x.sub_spec(y)),
        _ => undefined(),
    }
}

/// The product of two numbers; a string repeated; undefined for anything
/// else.
pub open spec fn mul_spec(a: ValueView, b: ValueView) -> ValueView {
    match (a, b) {
        (ValueView::Number(x), ValueView::Number(y)) => number_or_undefined(x.mul_spec(y)),
        (ValueView::String(s), ValueView::Number(y)) => string_times(s, y),
        _ => undefined(),
    }
}

/// The quotient of two numbers; undefined for a zero divisor and for anything
/// else.
pub open spec fn div_spec(a: ValueView, b: ValueView) -> ValueView {
    match (a, b) {
        (ValueView::Number(x), ValueView::Number(y)) => number_or_undefined(x.div_spec(y)),
        _ => undefined(),
    }
}

/// The remainder of two numbers; undefined for a zero divisor and for
/// anything else.
pub open spec fn rem_spec(a: ValueView, b: ValueView) -> ValueView {
    match (a, b) {
        (ValueView::Number(x), ValueView::Number(y)) => number_or_undefined(x.rem_spec(y)),
        _ => undefined(),
    }
}

/// A truth value turned round, a number with the opposite sign, a string read
/// back to front; undefined for anything else.
pub open spec fn neg_spec(a: ValueView) -> ValueView {
    match a {
        ValueView::Boolean(b) => ValueView::Boolean(b.not_spec()),
        ValueView::Number(n) => ValueView::Number(n.neg_spec()),
        ValueView::String(s) => ValueView::String(s.reverse()),
        _ => undefined(),
    }
}

/// The conjunction of the truth values of two values.
pub open spec fn and_spec(a: ValueView, b: ValueView) -> ValueView {
    ValueView::Boolean(truth(a).and_spec(truth(b)))
}

/// The disjunction of the truth values of two values.
pub open spec fn or_spec(a: ValueView, b: ValueView) -> ValueView {
    ValueView::Boolean(truth(a).or_spec(truth(b)))
}

/// The four orderings of two values.
#[derive(Debug, Clone, Copy, PartialEq, Eq, Structural)]
pub enum Relation {
    Less,
    LessOrEqual,
    Greater,
    GreaterOrEqual,
}

/// Whether two numbers stand in a relation.
pub open spec fn related(x: Number, y: Number, relation: Relation) -> bool {
    match relation {
        Relation::Less => x.lt_spec(y),
        Relation::LessOrEqual => x.le_spec(y),
        Relation::Greater => y.lt_spec(x),
        Relation::GreaterOrEqual => y.le_spec(x),
    }
}

/// Two numbers compared; none where one side is no number.
pub open spec fn relation_spec(a: ValueView, b: ValueView, relation: Relation) -> Option<
    Boolean,
> {
    match (a, b) {
        (ValueView::Number(x), ValueView::Number(y)) => Some(
            Boolean::of(related(x, y, relation)),
        ),
        _ => None,
    }
}

/// A text with its case and the white space at its ends folded away.
pub open spec fn folded(s: Seq<char>) -> Seq<char> {
    trimmed(lowercase_of(s))
}

/// Whether two numbers are equal, or close where the comparison is loose.
pub open spec fn numbers_equal(x: Number, y: Number) -> bool {
    x.scaled() == y.scaled() || x.close_spec(y)
}

/// Whether two values are loosely equal beyond their folded texts: two
/// numbers that are equal or close, or a number and a string that spells one
/// that is equal or close to it.
pub open spec fn loosely_equal(a: ValueView, b: ValueView) -> bool {
    match (a, b) {
        (ValueView::Number(x), ValueView::Number(y)) => numbers_equal(x, y),
        (ValueView::String(s), ValueView::Number(y)) => Number::parse_spec(s) matches Some(x)
            && numbers_equal(y, x),
        (ValueView::Number(x), ValueView::String(s)) => Number::parse_spec(s) matches Some(y)
            && numbers_equal(x, y),
        _ => false,
    }
}

/// Graded equality, given the folded texts of the two values. Up to
/// precision 2 two values that both count as false are equal. At precision 1
/// (and 0) values are equal where their folded texts are, or where they are
/// loosely equal; at precision 2 where their texts are equal; from precision
/// 3 on where they are the same value.
pub open spec fn eq_given(
    a: ValueView,
    b: ValueView,
    precision: u8,
    folded_a: Seq<char>,
    folded_b: Seq<char>,
) -> bool {
    if precision <= 2 && truth(a) == Boolean::False && truth(b) == Boolean::False {
        true
    } else if precision == 2 {
        value_text(a) == value_text(b)
    } else if precision <= 1 {
        folded_a == folded_b || loosely_equal(a, b)
    } else {
        a == b
    }
}

/// Graded equality.
pub open spec fn eq_spec(a: ValueView, b: ValueView, precision: u8) -> bool {
    eq_given(a, b, precision, folded(value_text(a)), folded(value_text(b)))
}

/// Appends `k` copies of `s` to `buf`.
fn push_copies(buf: &mut Vec<char>, s: &Vec<char>, k: u64)
    ensures
        final(buf)@ == old(buf)@ + repeat_text(s@, k as nat),
{
    let mut i: u64 = 0;
    assert(buf@ =~= old(buf)@ + repeat_text(s@, 0));
    while i < k
        invariant
            i <= k,
            buf@ == old(buf)@ + repeat_text(s@, i as nat),
        decreases k - i,
    {
        append(buf, s);
        assert(buf@ =~= old(buf)@ + repeat_text(s@, (i + 1) as nat));
        i += 1;
    }
}

impl Value {
    /// The undefined value: the object without entries.
    pub fn empty_object() -> (r: Value)
        ensures
            r@ == undefined(),
    {
        let members: Vec<Member> = Vec::new();
        proof {
            lemma_member_models(members);
            assert(views(members@) =~= Seq::empty());
        }
        Value::Object(members)
    }

    /// A deep copy of the value.
    pub fn copy(&self) -> (r: Value)
        ensures
            r@ == self@,
        decreases self,
    {
        match self {
            Value::Boolean(b) => Value::Boolean(*b),
            Value::String(s) => Value::String(copy_text(s)),
            Value::Number(n) => Value::Number(*n),
            Value::Object(members) => {
                let mut out: Vec<Member> = Vec::new();
                let mut i: usize = 0;
                while i < members.len()
                    invariant
                        i <= members.len(),
                        out@.len() == i,
                        self is Object,
                        self->Object_0 == *members,
                        forall|j: int| 0 <= j < i ==> out@[j]@ == members@[j]@,
                    decreases members.len() - i,
                {
                    let key = members[i].key.copy();
                    out.push(Member { key, pointer: members[i].pointer });
                    i += 1;
                }
                proof {
                    assert(views(out@) =~= views(members@));
                    lemma_member_models(out);
                    lemma_member_models(*members);
                }
                Value::Object(out)
            },
            Value::Function(params, body) => Value::Function(copy_texts(params), body.copy()),
            Value::Class(body) => Value::Class(copy_syntaxes(body)),
            Value::Keyword(k) => Value::Keyword(*k),
        }
    }

    /// Whether two values are the same value.
    pub fn same(&self, other: &Value) -> (r: bool)
        ensures
            r == (self@ == other@),
        decreases self,
    {
        match (self, other) {
            (Value::Boolean(a), Value::Boolean(b)) => *a == *b,
            (Value::String(a), Value::String(b)) => text_eq(a, b),
            (Value::Number(a), Value::Number(b)) => *a == *b,
            (Value::Object(a), Value::Object(b)) => {
                proof {
                    lemma_member_models(*a);
                    lemma_member_models(*b);
                }
                if a.len() != b.len() {
                    assert(views(a@).len() != views(b@).len());
                    return false;
                }
                let mut i: usize = 0;
                while i < a.len()
                    invariant
                        i <= a.len(),
                        a.len() == b.len(),
                        self is Object,
                        self->Object_0 == *a,
                        self@ == ValueView::Object(views(a@)),
                        other@ == ValueView::Object(views(b@)),
                        forall|j: int| 0 <= j < i ==> a@[j]@ == b@[j]@,
                    decreases a.len() - i,
                {
                    if !(a[i].pointer == b[i].pointer && a[i].key.same(&b[i].key)) {
                        assert(views(a@)[i as int] != views(b@)[i as int]);
                        return false;
                    }
                    i += 1;
                }
                assert(views(a@) =~= views(b@));
                true
            },
            (Value::Function(params, body), Value::Function(params2, body2)) => {
                texts_eq(params, params2) && body.same(body2)
            },
            (Value::Class(a), Value::Class(b)) => syntaxes_eq(a, b),
            (Value::Keyword(a), Value::Keyword(b)) => *a == *b,
            _ => false,
        }
    }

    /// Appends the text of the value to `buf`.
    pub fn write_text(&self, buf: &mut Vec<char>)
        ensures
            final(buf)@ == old(buf)@ + value_text(self@),
        decreases self,
    {
        match self {
            Value::Boolean(b) => {
                let t = b.to_text();
                append(buf, &t);
            },
            Value::String(s) => {
                append(buf, s);
            },
            Value::Number(n) => {
                let t = n.to_text();
                append(buf, &t);
            },
            Value::Object(members) => {
                proof {
                    lemma_member_models(*members);
                }
                if members.len() == 0 {
                    append_str(buf, "undefined");
                } else {
                    append_str(buf, "{");
                    let ghost start = buf@;
                    let mut i: usize = 0;
                    assert(views(members@).take(0) =~= Seq::empty());
                    while i < members.len()
                        invariant
                            i <= members.len(),
                            self is Object,
                            self->Object_0 == *members,
                            buf@ == start + keys_text(views(members@).take(i as int)),
                        decreases members.len() - i,
                    {
                        let ghost before = buf@;
                        if i > 0 {
                            append_str(buf, ", ");
                        }
                        members[i].key.write_text(buf);
                        proof {
                            let t = views(members@).take(i + 1);
                            assert(t.drop_last() =~= views(members@).take(i as int));
                            assert(t.last() == members@[i as int]@);
                            if i == 0 {
                                assert(t[0] == members@[0]@);
                                assert(buf@ =~= start + keys_text(t));
                            } else {
                                assert(buf@ =~= before + ", "@ + value_text(
                                    members@[i as int]@.key,
                                ));
                                assert(buf@ =~= start + keys_text(t));
                            }
                        }
                        i += 1;
                    }
                    assert(views(members@).take(members.len() as int) =~= views(members@));
                    append_str(buf, "}");
                    assert(buf@ =~= old(buf)@ + value_text(self@));
                }
            },
            Value::Function(params, body) => {
                append_str(buf, "[");
                write_names(buf, params);
                append_str(buf, "] => ");
                body.write_text(buf);
                assert(buf@ =~= old(buf)@ + value_text(self@));
            },
            Value::Class(body) => {
                append_str(buf, "class {");
                let ghost start = buf@;
                let mut i: usize = 0;
                assert(views(body@).take(0) =~= Seq::empty());
                while i < body.len()
                    invariant
                        i <= body.len(),
                        buf@ == start + statements_text(views(body@).take(i as int)),
                    decreases body.len() - i,
                {
                    body[i].write_text(buf);
                    append_str(buf, " ");
                    proof {
                        let t = views(body@).take(i + 1);
                        assert(t.drop_last() =~= views(body@).take(i as int));
                        assert(t.last() == body@[i as int]@);
                        assert(buf@ =~= start + statements_text(t));
                    }
                    i += 1;
                }
                assert(views(body@).take(body.len() as int) =~= views(body@));
                append_str(buf, "}");
                assert(buf@ =~= old(buf)@ + value_text(self@));
            },
            Value::Keyword(k) => {
                let t = k.to_text();
                append(buf, &t);
            },
        }
    }

    /// The text of the value.
    pub fn to_text(&self) -> (r: Vec<char>)
        ensures
            r@ == value_text(self@),
    {
        let mut buf: Vec<char> = Vec::new();
        self.write_text(&mut buf);
        assert(buf@ =~= value_text(self@));
        buf
    }

    /// The truth value of the value.
    pub fn bool(&self) -> (r: Boolean)
        ensures
            r == truth(self@),
    {
        match self {
            Value::Boolean(b) => *b,
            Value::Number(n) => n.truth(),
            Value::String(s) => {
                if s.len() == 0 {
                    Boolean::False
                } else {
                    Boolean::True
                }
            },
            _ => Boolean::Maybe,
        }
    }

    /// The value of a number that may be missing.
    fn of_number(n: Option<Number>) -> (r: Value)
        ensures
            r@ == number_or_undefined(n),
    {
        match n {
            Some(n) => Value::Number(n),
            None => Value::empty_object(),
        }
    }

    /// The sum of two values.
    pub fn add(&self, rhs: &Value) -> (r: Value)
        ensures
            r@ == add_spec(self@, rhs@),
    {
        match (self, rhs) {
            (Value::Number(x), Value::Number(y)) => Value::of_number(x.add(y)),
            (Value::Boolean(t), Value::Number(y)) => Value::of_number(t.to_number().add(y)),
            (Value::Number(x), Value::Boolean(t)) => Value::of_number(t.to_number().add(x)),
            (Value::String(s), other) => {
                let mut buf = copy_text(s);
                other.write_text(&mut buf);
                Value::String(buf)
            },
            _ => Value::empty_object(),
        }
    }

    /// The difference of two values.
    pub fn sub(&self, rhs: &Value) -> (r: Value)
        ensures
            r@ == sub_spec(self@, rhs@),
    {
        match (self, rhs) {
            (Value::Number(x), Value::Number(y)) => Value::of_number(x.sub(y)),
            _ => Value::empty_object(),
        }
    }

    /// A string times a number.
    fn times(s: &Vec<char>, n: &Number) -> (r: Value)
        ensures
            r@ == string_times(s@, *n),
    {
        match n.whole() {
            None => Value::empty_object(),
            Some(whole) => {
                let f: u64 = n.fraction();
                let len: usize = s.len();
                assert((f as nat) * (len as nat) <= 1_000_000_000 * 0xffff_ffff_ffff_ffff)
                    by (nonlinear_arith)
                    requires
                        f < 1_000_000_000,
                        len <= 0xffff_ffff_ffff_ffff,
                ;
                let part: u128 = (f as u128) * (len as u128) / SCALE;
                assert(part <= len) by (nonlinear_arith)
                    requires
                        part == (f as nat) * (len as nat) / 1_000_000_000,
                        f < 1_000_000_000,
                ;
                if len > 0 && whole > usize::MAX as u128 {
                    assert((whole as nat) * (len as nat) > usize::MAX) by (nonlinear_arith)
                        requires
                            whole > usize::MAX,
                            len > 0,
                    ;
                    return Value::empty_object();
                }
                if len > 0 {
                    assert((whole as nat) * (len as nat) <= 0xffff_ffff_ffff_ffff
                        * 0xffff_ffff_ffff_ffff) by (nonlinear_arith)
                        requires
                            whole <= 0xffff_ffff_ffff_ffff,
                            len <= 0xffff_ffff_ffff_ffff,
                    ;
                    let total: u128 = whole * (len as u128) + part;
                    if total > usize::MAX as u128 {
                        return Value::empty_object();
                    }
                } else {
                    assert((whole as nat) * (len as nat) == 0) by (nonlinear_arith)
                        requires
                            len == 0,
                    ;
                }
                let mut buf: Vec<char> = Vec::new();
                if len > 0 {
                    push_copies(&mut buf, s, whole as u64);
                } else {
                    assert(repeat_text(s@, whole as nat) =~= Seq::<char>::empty()) by {
                        lemma_repeat_empty(s@, whole as nat);
                    }
                }
                let ghost copies = buf@;
                let mut i: usize = 0;
                while i < part as usize
                    invariant
                        i <= part,
                        part <= len,
                        len == s.len(),
                        buf@ == copies + s@.take(i as int),
                    decreases part - i,
                {
                    buf.push(s[i]);
                    assert(s@.take(i + 1) =~= s@.take(i as int).push(s@[i as int]));
                    i += 1;
                }
                assert(buf@ =~= repeat_text(s@, whole as nat) + s@.take(part as int));
                if n.negative() {
                    Value::String(reversed(&buf))
                } else {
                    Value::String(buf)
                }
            },
        }
    }

    /// The product of two values.
    pub fn mul(&self, rhs: &Value) -> (r: Value)
        ensures
            r@ == mul_spec(self@, rhs@),
    {
        match (self, rhs) {
            (Value::Number(x), Value::Number(y)) => Value::of_number(x.mul(y)),
            (Value::String(s), Value::Number(y)) => Value::times(s, y),
            _ => Value::empty_object(),
        }
    }

    /// The quotient of two values.
    pub fn div(&self, rhs: &Value) -> (r: Value)
        ensures
            r@ == div_spec(self@, rhs@),
    {
        match (self, rhs) {
            (Value::Number(x), Value::Number(y)) => Value::of_number(x.div(y)),
            _ => Value::empty_object(),
        }
    }

    /// The remainder of two values.
    pub fn rem(&self, rhs: &Value) -> (r: Value)
        ensures
            r@ == rem_spec(self@, rhs@),
    {
        match (self, rhs) {
            (Value::Number(x), Value::Number(y)) => Value::of_number(x.rem(y)),
            _ => Value::empty_object(),
        }
    }

    /// The negation of a value.
    pub fn neg(&self) -> (r: Value)
        ensures
            r@ == neg_spec(self@),
    {
        match self {
            Value::Boolean(b) => Value::Boolean(b.not()),
            Value::Number(n) => Value::Number(n.neg()),
            Value::String(s) => Value::String(reversed(s)),
            _ => Value::empty_object(),
        }
    }

    /// The conjunction of the truth values of two values.
    pub fn bitand(&self, rhs: &Value) -> (r: Value)
        ensures
            r@ == and_spec(self@, rhs@),
    {
        Value::Boolean(self.bool().and(&rhs.bool()))
    }

    /// The disjunction of the truth values of two values.
    pub fn bitor(&self, rhs: &Value) -> (r: Value)
        ensures
            r@ == or_spec(self@, rhs@),
    {
        Value::Boolean(self.bool().or(&rhs.bool()))
    }

    /// Compares two numbers; none where one side is no number.
    pub fn compare(&self, rhs: &Value, relation: Relation) -> (r: Option<Boolean>)
        ensures
            r == relation_spec(self@, rhs@, relation),
    {
        match (self, rhs) {
            (Value::Number(x), Value::Number(y)) => {
                let holds: bool = match relation {
                    Relation::Less => x.lt(y),
                    Relation::LessOrEqual => x.le(y),
                    Relation::Greater => y.lt(x),
                    Relation::GreaterOrEqual => y.le(x),
                };
                Some(Boolean::from(holds))
            },
            _ => None,
        }
    }

    /// Whether two numbers are equal or close.
    fn number_matches(x: &Number, y: &Number) -> (r: bool)
        ensures
            r == numbers_equal(*x, *y),
    {
        x.same(y) || x.close(y)
    }

    /// Whether two values are loosely equal beyond their folded texts.
    fn loose(&self, rhs: &Value) -> (r: bool)
        ensures
            r == loosely_equal(self@, rhs@),
    {
        match (self, rhs) {
            (Value::Number(x), Value::Number(y)) => Value::number_matches(x, y),
            (Value::String(s), Value::Number(y)) => match Number::parse(s) {
                Some(x) => Value::number_matches(y, &x),
                None => false,
            },
            (Value::Number(x), Value::String(s)) => match Number::parse(s) {
                Some(y) => Value::number_matches(x, &y),
                None => false,
            },
            _ => false,
        }
    }

    /// Whether two values are equal at the given precision, given their
    /// folded texts.
    pub fn equals_given(
        &self,
        rhs: &Value,
        precision: u8,
        folded_self: &Vec<char>,
        folded_rhs: &Vec<char>,
    ) -> (r: bool)
        ensures
            r == eq_given(self@, rhs@, precision, folded_self@, folded_rhs@),
    {
        if precision <= 2 && self.bool() == Boolean::False && rhs.bool() == Boolean::False {
            return true;
        }
        if precision == 2 {
            let a = self.to_text();
            let b = rhs.to_text();
            text_eq(&a, &b)
        } else if precision <= 1 {
            text_eq(folded_self, folded_rhs) || self.loose(rhs)
        } else {
            self.same(rhs)
        }
    }

    /// The text of the value with its case and the white space at its ends
    /// folded away.
    pub fn folded_text(&self) -> (r: Vec<char>)
        ensures
            r@ == folded(value_text(self@)),
    {
        trim(&to_lowercase(&self.to_text()))
    }

    /// Whether two values are equal at the given precision.
    pub fn equals(&self, rhs: &Value, precision: u8) -> (r: bool)
        ensures
            r == eq_spec(self@, rhs@, precision),
    {
        if precision <= 1 {
            self.equals_given(rhs, precision, &self.folded_text(), &rhs.folded_text())
        } else {
            let unused: Vec<char> = Vec::new();
            self.equals_given(rhs, precision, &unused, &unused)
        }
    }

    /// Graded equality, as a truth value of the language.
    pub fn eq(&self, rhs: &Value, precision: u8) -> (r: Value)
        ensures
            r@ == ValueView::Boolean(Boolean::of(eq_spec(self@, rhs@, precision))),
    {
        Value::Boolean(Boolean::from(self.equals(rhs, precision)))
    }

    /// Whether the value is the undefined value.
    pub fn is_undefined(&self) -> (r: bool)
        ensures
            r == (self@ == undefined()),
    {
        match self {
            Value::Object(members) => {
                proof {
                    lemma_member_models(*members);
                    if members.len() == 0 {
                        assert(views(members@) =~= Seq::empty());
                    } else {
                        assert(views(members@).len() > 0);
                        assert(self@->Object_0.len() > 0);
                    }
                }
                members.len() == 0
            },
            _ => false,
        }
    }
}

/// Copies of the empty text are the empty text.
proof fn lemma_repeat_empty(s: Seq<char>, k: nat)
    requires
        s.len() == 0,
    ensures
        repeat_text(s, k) =~= Seq::<char>::empty(),
    decreases k,
{
    if k > 0 {
        lemma_repeat_empty(s, (k - 1) as nat);
    }
}

impl Clone for Value {
    /// A deep copy.
    fn clone(&self) -> (r: Self)
        ensures
            r@ == self@,
    {
        self.copy()
    }
}

impl Clone for Member {
    /// A deep copy.
    fn clone(&self) -> (r: Self)
        ensures
            r@ == self@,
    {
        Member { key: self.key.copy(), pointer: self.pointer }
    }
}

} // verus!
