//! The evaluator: it walks a syntax tree and gives the binding that the tree
//! stands for.
//!
//! An evaluation has a budget of nested steps. Every step into a
//! subexpression, a call or a listener takes one from it, and the evaluation
//! stops with an error where it is used up; so every evaluation ends.

use vstd::prelude::*;
use crate::error::EvalError;
use crate::grouping::{all_idents, call_arguments, ident_names};
use crate::lexer::{lex, tokenize_chars};
use crate::number::{Number, SCALE};
use crate::parser::{parse, parsed};
use crate::pointer::{
    find_member,
    lemma_heap_keeps_keys,
    lookup_member,
    well_keyed,
    Heap,
    HeapView,
    Listener,
    ListenerView,
    Pointer,
};
use crate::state::{
    default_value_spec,
    function_pattern,
    lemma_state_keeps_unique,
    regex_matches,
    Lifetime,
    State,
    StateView,
};
use crate::syntax::{
    copy_syntaxes,
    lemma_models,
    syntax_text,
    Operation,
    Syntax,
    SyntaxView,
    UnaryOperation,
    VarType,
};
use crate::text::{append, append_str, chars_of, copy_text, copy_texts, lemma_views_push, views};
use crate::token::{StringSegment, StringSegmentView};
use crate::value::{
    add_spec,
    and_spec,
    div_spec,
    lemma_member_models,
    mul_spec,
    neg_spec,
    or_spec,
    relation_spec,
    rem_spec,
    sub_spec,
    truth,
    undefined,
    value_text,
    Boolean,
    Keyword,
    Member,
    MemberView,
    Relation,
    Value,
    ValueView,
};

verus! {

/// All that an evaluation reads and changes: the heap, the environment, and
/// the lines that debug statements have put out.
#[derive(Debug, PartialEq, Eq)]
pub struct Machine {
    pub heap: Heap,
    pub state: State,
    pub output: Vec<Vec<char>>,
}

/// The view of a machine: its parts by their views.
pub ghost struct MachineView {
    pub heap: HeapView,
    pub state: StateView,
    pub output: Seq<Seq<char>>,
}

impl View for Machine {
    type V = MachineView;

    open spec fn view(&self) -> MachineView {
        MachineView { heap: self.heap@, state: self.state@, output: views(self.output@) }
    }
}

/// The machine after a step, and the binding that the step gave or the
/// reason why it gave none.
pub type Outcome = (MachineView, Result<Pointer, EvalError>);

/// The text of a pointer in a debug statement: the kind of the binding, and
/// the text of the value in brackets.
pub open spec fn pointer_debug(h: HeapView, p: Pointer) -> Seq<char> {
    (match p {
        Pointer::ConstConst(_) => "ConstConst("@,
        Pointer::ConstVar(_) => "ConstVar("@,
        Pointer::VarConst(_) => "VarConst("@,
        Pointer::VarVar(_) => "VarVar("@,
    }) + value_text(h.value_of(p)) + ")"@
}

/// The names in the pieces of a string literal, in their order.
pub open spec fn segment_idents(segments: Seq<StringSegmentView>) -> Seq<Seq<char>>
    decreases segments.len(),
{
    if segments.len() == 0 {
        Seq::empty()
    } else {
        segment_idents(segments.drop_last()) + (match segments.last() {
            StringSegmentView::Ident(name) => seq![name],
            StringSegmentView::String(_) => Seq::empty(),
        })
    }
}

/// The names that occur in a condition, in the order in which they are
/// written down here: a name itself; the names in the statements of a block,
/// in the arguments and then the callee of a call, in both operands of an
/// operator, in the operand of a unary operator, in a statement, in the value
/// of a declaration, in the body of a function, and in the pieces of a string
/// literal.
pub open spec fn free_idents(s: SyntaxView) -> Seq<Seq<char>>
    decreases s,
{
    match s {
        SyntaxView::Ident(name) => seq![name],
        SyntaxView::Block(list) => free_idents_of(list),
        SyntaxView::Call(callee, arguments) => free_idents_of(arguments) + free_idents(*callee),
        SyntaxView::UnaryOperation(_, operand) => free_idents(*operand),
        SyntaxView::Operation(lhs, _, rhs) => free_idents(*lhs) + free_idents(*rhs),
        SyntaxView::Statement(_, inner, _) => free_idents(*inner),
        SyntaxView::Declare(_, _, value) => free_idents(*value),
        SyntaxView::Function(_, body) => free_idents(*body),
        SyntaxView::String(segments) => segment_idents(segments),
    }
}

/// The names that occur in the trees of a list, in their order.
pub open spec fn free_idents_of(list: Seq<SyntaxView>) -> Seq<Seq<char>>
    decreases list,
{
    if list.len() == 0 {
        Seq::empty()
    } else {
        free_idents_of(list.drop_last()) + free_idents(list.last())
    }
}

/// The fragment that `when` leaves with a cell: `if` called with the
/// condition and the body.
pub open spec fn when_fragment(condition: SyntaxView, body: SyntaxView) -> SyntaxView {
    SyntaxView::Call(Box::new(SyntaxView::Ident("if"@)), seq![condition, body])
}

/// The number one.
pub open spec fn one() -> ValueView {
    ValueView::Number(Number::Finite { negative: false, magnitude: SCALE })
}

/// The value of `a op b` for the operators that compute a value from two.
pub open spec fn binary_spec(op: Operation, a: ValueView, b: ValueView) -> ValueView {
    match op {
        Operation::Add | Operation::AddEq => add_spec(a, b),
        Operation::Sub | Operation::SubEq => sub_spec(a, b),
        Operation::Mul | Operation::MulEq => mul_spec(a, b),
        Operation::Div | Operation::DivEq => div_spec(a, b),
        Operation::Mod | Operation::ModEq => rem_spec(a, b),
        Operation::And => and_spec(a, b),
        Operation::Or => or_spec(a, b),
        _ => undefined(),
    }
}

/// The relation that an operator asks for, where it compares.
pub open spec fn relation_of(op: Operation) -> Option<Relation> {
    match op {
        Operation::Lt => Some(Relation::Less),
        Operation::Le => Some(Relation::LessOrEqual),
        Operation::Gt => Some(Relation::Greater),
        Operation::Ge => Some(Relation::GreaterOrEqual),
        _ => None,
    }
}

/// The operators that change their left side in place.
pub open spec fn in_place(op: Operation) -> bool {
    op == Operation::AddEq || op == Operation::SubEq || op == Operation::MulEq || op
        == Operation::DivEq || op == Operation::ModEq
}

/// The names of a parameter list: the names of a block of names, or the one
/// name; none where something else stands among them.
pub open spec fn parameter_names(s: SyntaxView) -> Option<Seq<Seq<char>>> {
    if all_idents(call_arguments(s)) {
        Some(ident_names(call_arguments(s)))
    } else {
        None
    }
}

impl MachineView {
    /// Whether no layer binds a name twice and no object has a key twice.
    pub open spec fn tidy(self) -> bool {
        self.state.unique() && self.heap.well_keyed()
    }

    /// The machine with another heap.
    pub open spec fn with_heap(self, heap: HeapView) -> MachineView {
        MachineView { heap, ..self }
    }

    /// The machine with another environment.
    pub open spec fn with_state(self, state: StateView) -> MachineView {
        MachineView { state, ..self }
    }

    /// The machine after a debug statement has put out a line.
    pub open spec fn print(self, line: Seq<char>) -> MachineView {
        MachineView { output: self.output.push(line), ..self }
    }

    /// A new binding, fixed on both axes, to the value `v`.
    pub open spec fn give(self, v: ValueView) -> Outcome {
        (
            self.with_heap(self.heap.fresh(v, VarType::ConstConst).0),
            Ok(self.heap.fresh(v, VarType::ConstConst).1),
        )
    }

    /// The undefined binding of the environment.
    pub open spec fn give_undefined(self) -> Outcome {
        (self, Ok(self.state.undefined))
    }

    /// The machine as it is, and an error.
    pub open spec fn fail(self, e: EvalError) -> Outcome {
        (self, Err(e))
    }

    /// The machine of a new program.
    pub open spec fn initial() -> MachineView {
        MachineView {
            heap: StateView::initial(HeapView::empty()).0,
            state: StateView::initial(HeapView::empty()).1,
            output: Seq::empty(),
        }
    }

    /// Looks a name up.
    pub open spec fn lookup(self, scope: usize, name: Seq<char>) -> (MachineView, Pointer) {
        let (h, s, p) = self.state.get(self.heap, scope, name);
        (MachineView { heap: h, state: s, ..self }, p)
    }

    /// Binds a name in a layer.
    pub open spec fn bind(self, scope: usize, name: Seq<char>, p: Pointer) -> MachineView {
        self.with_state(self.state.insert(scope, name, p, Lifetime::Default))
    }

    /// Opens a new layer inside `scope`.
    pub open spec fn enter(self, scope: usize) -> (MachineView, usize) {
        (self.with_state(self.state.from_parent(scope).0), self.state.from_parent(scope).1)
    }

    /// The texts of the pieces of a string literal, joined; the names among
    /// them are looked up from left to right.
    pub open spec fn join(self, segments: Seq<StringSegmentView>, scope: usize) -> (
        MachineView,
        Seq<char>,
    )
        decreases segments.len(),
    {
        if segments.len() == 0 {
            (self, Seq::empty())
        } else {
            let (m, text) = self.join(segments.drop_last(), scope);
            match segments.last() {
                StringSegmentView::String(s) => (m, text + s),
                StringSegmentView::Ident(name) => {
                    let (m1, p) = m.lookup(scope, name);
                    (m1, text + value_text(m1.heap.value_of(p)))
                },
            }
        }
    }

    /// Leaves `fragment` as a listener with the cell of each of the first `n`
    /// names that has one.
    pub open spec fn watch(
        self,
        names: Seq<Seq<char>>,
        n: int,
        fragment: SyntaxView,
        scope: usize,
    ) -> MachineView
        decreases n,
    {
        if n <= 0 || n > names.len() {
            self
        } else {
            let m = self.watch(names, n - 1, fragment, scope);
            let (m1, p) = m.lookup(scope, names[n - 1]);
            match m1.heap.cell_id(p) {
                Some(c) => m1.with_heap(m1.heap.add_listener(c, ListenerView { fragment, scope })),
                None => m1,
            }
        }
    }

    /// Evaluates a tree in a layer of the environment, with a budget of
    /// `depth` nested steps.
    pub open spec fn eval(self, s: SyntaxView, scope: usize, depth: nat) -> Outcome
        decreases depth, 0nat, 0nat,
    {
        if depth == 0 {
            self.fail(EvalError::TooDeep)
        } else {
            let d = (depth - 1) as nat;
            match s {
                SyntaxView::Statement(is_debug, inner, level) => {
                    let before = if is_debug && level >= 3 {
                        self.print(syntax_text(*inner))
                    } else {
                        self
                    };
                    let (m, r) = before.eval(*inner, scope, d);
                    match r {
                        Err(e) => (m, Err(e)),
                        Ok(p) => if is_debug {
                            (
                                m.print(
                                    if level >= 2 {
                                        pointer_debug(m.heap, p)
                                    } else {
                                        value_text(m.heap.value_of(p))
                                    },
                                ),
                                Ok(p),
                            )
                        } else {
                            m.give_undefined()
                        },
                    }
                },
                SyntaxView::UnaryOperation(op, operand) => {
                    let (m, r) = self.eval(*operand, scope, d);
                    match r {
                        Err(e) => (m, Err(e)),
                        Ok(p) => match op {
                            UnaryOperation::Negate => m.give(neg_spec(m.heap.value_of(p))),
                            UnaryOperation::Increment => m.change(
                                p,
                                add_spec(m.heap.value_of(p), one()),
                                p,
                                d,
                            ),
                            UnaryOperation::Decrement => m.change(
                                p,
                                sub_spec(m.heap.value_of(p), one()),
                                p,
                                d,
                            ),
                        },
                    }
                },
                SyntaxView::Operation(lhs, op, rhs) => self.operate(*lhs, op, *rhs, scope, d),
                SyntaxView::Block(statements) => {
                    let (m, inner) = self.enter(scope);
                    m.run(statements, 0, inner, d, m.state.undefined)
                },
                SyntaxView::Declare(vt, name, value) => {
                    let (m, r) = self.eval(*value, scope, d);
                    match r {
                        Err(e) => (m, Err(e)),
                        Ok(p) => {
                            let (h, q) = m.heap.convert(p, vt);
                            m.with_heap(h).bind(scope, name, q).give_undefined()
                        },
                    }
                },
                SyntaxView::String(segments) => {
                    let (m, text) = self.join(segments, scope);
                    m.give(ValueView::String(text))
                },
                SyntaxView::Call(callee, arguments) => {
                    let (m, r) = self.eval(*callee, scope, d);
                    match r {
                        Err(e) => (m, Err(e)),
                        Ok(f) => m.call(f, arguments, scope, d),
                    }
                },
                SyntaxView::Ident(name) => {
                    let (m, p) = self.lookup(scope, name);
                    (m, Ok(p))
                },
                SyntaxView::Function(params, body) => self.give(ValueView::Function(params, *body)),
            }
        }
    }

    /// Evaluates the statements of a list from the `i`-th on, in one layer.
    /// Gives what the last one gave, or `last` where none is left.
    pub open spec fn run(
        self,
        statements: Seq<SyntaxView>,
        i: int,
        scope: usize,
        depth: nat,
        last: Pointer,
    ) -> Outcome
        decreases depth, 1nat, statements.len() - i,
    {
        if i < 0 || i >= statements.len() {
            (self, Ok(last))
        } else {
            let (m, r) = self.eval(statements[i], scope, depth);
            match r {
                Err(e) => (m, Err(e)),
                Ok(p) => m.run(statements, i + 1, scope, depth, p),
            }
        }
    }

    /// Changes the value behind `target` in place, where it has a cell, lets
    /// the cell react, and gives `result`.
    pub open spec fn change(self, target: Pointer, v: ValueView, result: Pointer, depth: nat) -> Outcome
        decreases depth, 2nat, 0nat,
    {
        match self.heap.cell_id(target) {
            None => (self, Ok(result)),
            Some(c) => {
                let (m, r) = self.with_heap(self.heap.write_cell(c, v)).react(c, depth);
                match r {
                    Err(e) => (m, Err(e)),
                    Ok(_) => (m, Ok(result)),
                }
            },
        }
    }

    /// What follows a change of cell `c`: the cells that wait for its next
    /// change take its value and react in turn, in the order in which they
    /// came to wait; then the listeners that the cell had when it changed
    /// run, in the order in which they were left.
    pub open spec fn react(self, c: usize, depth: nat) -> Outcome
        decreases depth, 1nat, 0nat,
    {
        if depth == 0 {
            self.fail(EvalError::TooDeep)
        } else {
            let d = (depth - 1) as nat;
            let handles = self.heap.next_handles(c);
            let listeners = self.heap.listeners(c);
            let value = self.heap.value_of(Pointer::ConstVar(c));
            let (m, r) = self.with_heap(self.heap.clear_next_handles(c)).feed(handles, 0, value, d);
            match r {
                Err(e) => (m, Err(e)),
                Ok(_) => m.fire(listeners, 0, d),
            }
        }
    }

    /// The waiting cells from the `i`-th on take `value` and react.
    pub open spec fn feed(self, handles: Seq<usize>, i: int, value: ValueView, depth: nat) -> Outcome
        decreases depth, 2nat, handles.len() - i,
    {
        if i < 0 || i >= handles.len() {
            self.give_undefined()
        } else {
            let (m, r) = self.with_heap(self.heap.write_cell(handles[i], value)).react(
                handles[i],
                depth,
            );
            match r {
                Err(e) => (m, Err(e)),
                Ok(_) => m.feed(handles, i + 1, value, depth),
            }
        }
    }

    /// The listeners from the `i`-th on run, each in its own layer.
    pub open spec fn fire(self, listeners: Seq<ListenerView>, i: int, depth: nat) -> Outcome
        decreases depth, 1nat, listeners.len() - i,
    {
        if i < 0 || i >= listeners.len() {
            self.give_undefined()
        } else {
            let (m, r) = self.eval(listeners[i].fragment, listeners[i].scope, depth);
            match r {
                Err(e) => (m, Err(e)),
                Ok(_) => m.fire(listeners, i + 1, depth),
            }
        }
    }

    /// Evaluates `lhs op rhs`.
    pub open spec fn operate(
        self,
        lhs: SyntaxView,
        op: Operation,
        rhs: SyntaxView,
        scope: usize,
        depth: nat,
    ) -> Outcome
        decreases depth, 4nat, 0nat,
    {
        let (m, r) = self.eval(lhs, scope, depth);
        match r {
            Err(e) => (m, Err(e)),
            Ok(l) => if op == Operation::Dot && rhs is Ident && m.heap.value_of(l) is Object {
                let (h, found) = m.heap.dot(l, ValueView::String(rhs->Ident_0));
                (m.with_heap(h), found)
            } else {
                let (m1, r1) = m.eval(rhs, scope, depth);
                match r1 {
                    Err(e) => (m1, Err(e)),
                    Ok(right) => m1.apply(l, op, right, depth),
                }
            },
        }
    }

    /// Applies an operator to two bindings.
    pub open spec fn apply(self, l: Pointer, op: Operation, right: Pointer, depth: nat) -> Outcome
        decreases depth, 3nat, 0nat,
    {
        let a = self.heap.value_of(l);
        let b = self.heap.value_of(right);
        match op {
            Operation::Equal(n) => if n <= 1 {
                match self.heap.assign(l, right) {
                    Err(e) => self.fail(e),
                    Ok(h) => match h.cell_id(l) {
                        None => (self.with_heap(h), Ok(right)),
                        Some(c) => {
                            let (m, r) = self.with_heap(h).react(c, depth);
                            match r {
                                Err(e) => (m, Err(e)),
                                Ok(_) => (m, Ok(right)),
                            }
                        },
                    },
                }
            } else {
                self.give(
                    ValueView::Boolean(Boolean::of(self.heap.equal(l, right, (n - 1) as u8))),
                )
            },
            Operation::Dot => {
                let (h, found) = self.heap.dot(l, b);
                (self.with_heap(h), found)
            },
            Operation::Arrow => self.fail(EvalError::UnexpectedArrow),
            _ => match relation_of(op) {
                Some(relation) => match relation_spec(a, b, relation) {
                    Some(holds) => self.give(ValueView::Boolean(holds)),
                    None => self.fail(EvalError::NotComparable),
                },
                None => if in_place(op) {
                    self.change(l, binary_spec(op, a, b), l, depth)
                } else {
                    self.give(binary_spec(op, a, b))
                },
            },
        }
    }

    /// Binds the parameters from the `i`-th on in the layer `inner`: each to
    /// what its argument gives in the layer `scope`, or to undefined where no
    /// argument is left for it.
    pub open spec fn bind_arguments(
        self,
        params: Seq<Seq<char>>,
        arguments: Seq<SyntaxView>,
        i: int,
        scope: usize,
        inner: usize,
        depth: nat,
    ) -> Outcome
        decreases depth, 1nat, params.len() - i,
    {
        if i < 0 || i >= params.len() {
            self.give_undefined()
        } else if i < arguments.len() {
            let (m, r) = self.eval(arguments[i], scope, depth);
            match r {
                Err(e) => (m, Err(e)),
                Ok(p) => m.bind(inner, params[i], p).bind_arguments(
                    params,
                    arguments,
                    i + 1,
                    scope,
                    inner,
                    depth,
                ),
            }
        } else {
            self.bind(inner, params[i], self.state.undefined).bind_arguments(
                params,
                arguments,
                i + 1,
                scope,
                inner,
                depth,
            )
        }
    }

    /// Calls the value behind `f` with the given arguments.
    pub open spec fn call(self, f: Pointer, arguments: Seq<SyntaxView>, scope: usize, depth: nat) -> Outcome
        decreases depth, 5nat, 0nat,
    {
        match self.heap.value_of(f) {
            ValueView::Keyword(Keyword::If) => self.call_if(arguments, scope, depth),
            ValueView::Keyword(Keyword::Delete) => self.call_delete(arguments, scope),
            ValueView::Keyword(Keyword::Forget) => self.call_forget(arguments, scope),
            ValueView::Keyword(Keyword::Previous) => self.call_previous(arguments, scope, depth),
            ValueView::Keyword(Keyword::Next) => self.call_next(arguments, scope, depth),
            ValueView::Keyword(Keyword::When) => self.call_when(arguments, scope),
            ValueView::Keyword(Keyword::Function) => self.call_function(arguments, scope),
            ValueView::Keyword(Keyword::Class) => self.call_class(arguments, scope),
            ValueView::Keyword(Keyword::New) => self.call_new(arguments, scope, depth),
            ValueView::Keyword(Keyword::Eval) => self.call_eval(arguments, scope, depth),
            ValueView::Object(members) => self.call_object(f, members, arguments, scope, depth),
            ValueView::Function(params, body) => self.call_body(
                params,
                body,
                arguments,
                scope,
                depth,
            ),
            other => self.call_other(other, arguments, scope, depth),
        }
    }

    /// `delete` with one name binds the name to undefined where it is bound;
    /// with anything else it does nothing.
    pub open spec fn call_delete(self, arguments: Seq<SyntaxView>, scope: usize) -> Outcome {
        if arguments.len() == 1 && arguments[0] is Ident {
            self.with_state(self.state.delete(scope, arguments[0]->Ident_0)).give_undefined()
        } else {
            self.give_undefined()
        }
    }

    /// `forget` with one name binds the name to undefined in the layer where
    /// it is called.
    pub open spec fn call_forget(self, arguments: Seq<SyntaxView>, scope: usize) -> Outcome {
        if arguments.len() == 1 && arguments[0] is Ident {
            self.bind(scope, arguments[0]->Ident_0, self.state.undefined).give_undefined()
        } else {
            self.fail(EvalError::ForgetArity)
        }
    }

    /// `previous` gives the value that the cell of its argument held before
    /// its last change; undefined where there is no cell or no change.
    pub open spec fn call_previous(self, arguments: Seq<SyntaxView>, scope: usize, depth: nat) -> Outcome
        decreases depth, 3nat, 0nat,
    {
        if arguments.len() == 1 {
            let (m, r) = self.eval(arguments[0], scope, depth);
            match r {
                Err(e) => (m, Err(e)),
                Ok(p) => match m.heap.cell_id(p) {
                    Some(c) => match m.heap.previous(c) {
                        Some(v) => m.give(v),
                        None => m.give_undefined(),
                    },
                    None => m.give_undefined(),
                },
            }
        } else {
            self.fail(EvalError::PreviousArity)
        }
    }

    /// `next` gives a new cell that takes the value of the cell of its
    /// argument at that cell's next change.
    pub open spec fn call_next(self, arguments: Seq<SyntaxView>, scope: usize, depth: nat) -> Outcome
        decreases depth, 3nat, 0nat,
    {
        if arguments.len() == 1 {
            let (m, r) = self.eval(arguments[0], scope, depth);
            match r {
                Err(e) => (m, Err(e)),
                Ok(p) => match m.heap.cell_id(p) {
                    Some(c) => (
                        m.with_heap(
                            m.heap.alloc_cell(undefined()).add_next_handle(
                                c,
                                m.heap.cells.len() as usize,
                            ),
                        ),
                        Ok(Pointer::ConstVar(m.heap.cells.len() as usize)),
                    ),
                    None => m.fail(EvalError::NextOfConst),
                },
            }
        } else {
            self.fail(EvalError::NextArity)
        }
    }

    /// `when` leaves `if(condition, body)` as a listener with the cell of
    /// every name of the condition that has one.
    pub open spec fn call_when(self, arguments: Seq<SyntaxView>, scope: usize) -> Outcome {
        if arguments.len() == 2 {
            self.watch(
                free_idents(arguments[0]),
                free_idents(arguments[0]).len() as int,
                when_fragment(arguments[0], arguments[1]),
                scope,
            ).give_undefined()
        } else {
            self.fail(EvalError::WhenArity)
        }
    }

    /// `function` with a name, parameters and a body binds the name to the
    /// function.
    pub open spec fn call_function(self, arguments: Seq<SyntaxView>, scope: usize) -> Outcome {
        if arguments.len() == 3 && arguments[0] is Ident {
            match parameter_names(arguments[1]) {
                None => self.fail(EvalError::BadParameterName),
                Some(names) => self.give(ValueView::Function(names, arguments[2])).0.bind(
                    scope,
                    arguments[0]->Ident_0,
                    self.give(ValueView::Function(names, arguments[2])).1->Ok_0,
                ).give_undefined(),
            }
        } else {
            self.fail(EvalError::FunctionArguments)
        }
    }

    /// `class` with a name and a body binds the name to a cell that holds the
    /// class. The body is the statements of a block, or the one statement
    /// that a block of one statement has given way to.
    pub open spec fn call_class(self, arguments: Seq<SyntaxView>, scope: usize) -> Outcome {
        if arguments.len() == 2 && arguments[0] is Ident {
            self.with_heap(
                self.heap.alloc_cell(ValueView::Class(call_arguments(arguments[1]))),
            ).bind(
                scope,
                arguments[0]->Ident_0,
                Pointer::ConstVar(self.heap.cells.len() as usize),
            ).give_undefined()
        } else {
            self.fail(EvalError::ClassArguments)
        }
    }

    /// `new` runs the body of a class in a new layer and gives the bindings
    /// of that layer as an object.
    pub open spec fn call_new(self, arguments: Seq<SyntaxView>, scope: usize, depth: nat) -> Outcome
        decreases depth, 3nat, 0nat,
    {
        if arguments.len() == 1 {
            let (m, r) = self.eval(arguments[0], scope, depth);
            match r {
                Err(e) => (m, Err(e)),
                Ok(p) => match m.heap.value_of(p) {
                    ValueView::Class(body) => {
                        let (m1, inner) = m.enter(scope);
                        let (m2, r2) = m1.run(body, 0, inner, depth, m1.state.undefined);
                        match r2 {
                            Err(e) => (m2, Err(e)),
                            Ok(_) => m2.give(ValueView::Object(m2.state.locals_to_object(inner))),
                        }
                    },
                    _ => m.fail(EvalError::NotAClass),
                },
            }
        } else {
            self.fail(EvalError::NewArity)
        }
    }

    /// `eval` reads the text of its argument as a program and evaluates it in
    /// the layer where it is called.
    pub open spec fn call_eval(self, arguments: Seq<SyntaxView>, scope: usize, depth: nat) -> Outcome
        decreases depth, 3nat, 0nat,
    {
        if arguments.len() == 1 {
            let (m, r) = self.eval(arguments[0], scope, depth);
            match r {
                Err(e) => (m, Err(e)),
                Ok(p) => match lex(value_text(m.heap.value_of(p))) {
                    Err(e) => m.fail(EvalError::Lex(e)),
                    Ok(tokens) => match parsed(tokens) {
                        Err(e) => m.fail(EvalError::Parse(e)),
                        Ok(tree) => m.eval(tree, scope, depth),
                    },
                },
            }
        } else {
            self.fail(EvalError::EvalArity)
        }
    }

    /// An object is called by calling its entry `call`, in a new layer that
    /// binds `self` to the object.
    pub open spec fn call_object(
        self,
        f: Pointer,
        members: Seq<MemberView>,
        arguments: Seq<SyntaxView>,
        scope: usize,
        depth: nat,
    ) -> Outcome
        decreases depth, 4nat, 0nat,
    {
        match find_member(members, ValueView::String("call"@)) {
            None => self.fail(EvalError::NotCallable),
            Some(method) => if depth == 0 {
                self.fail(EvalError::TooDeep)
            } else {
                self.enter(scope).0.bind(self.enter(scope).1, "self"@, f).call(
                    method,
                    arguments,
                    self.enter(scope).1,
                    (depth - 1) as nat,
                )
            },
        }
    }

    /// A function is called by binding its parameters in a new layer and
    /// evaluating its body there. The arguments are evaluated in the layer of
    /// the call.
    pub open spec fn call_body(
        self,
        params: Seq<Seq<char>>,
        body: SyntaxView,
        arguments: Seq<SyntaxView>,
        scope: usize,
        depth: nat,
    ) -> Outcome
        decreases depth, 3nat, 0nat,
    {
        let (m, inner) = self.enter(scope);
        let (m1, r) = m.bind_arguments(params, arguments, 0, scope, inner, depth);
        match r {
            Err(e) => (m1, Err(e)),
            Ok(_) => m1.eval(body, inner, depth),
        }
    }

    /// Any other value, called with one argument, is multiplied by it.
    pub open spec fn call_other(
        self,
        other: ValueView,
        arguments: Seq<SyntaxView>,
        scope: usize,
        depth: nat,
    ) -> Outcome
        decreases depth, 3nat, 0nat,
    {
        if arguments.len() == 1 {
            let (m, r) = self.eval(arguments[0], scope, depth);
            match r {
                Err(e) => (m, Err(e)),
                Ok(p) => m.give(mul_spec(other, m.heap.value_of(p))),
            }
        } else {
            self.fail(EvalError::NotCallable)
        }
    }

    /// `if` with a condition, a body, and optionally a body for false and a
    /// body for maybe.
    pub open spec fn call_if(self, arguments: Seq<SyntaxView>, scope: usize, depth: nat) -> Outcome
        decreases depth, 3nat, 0nat,
    {
        if arguments.len() < 2 || arguments.len() > 4 {
            self.fail(EvalError::IfArity)
        } else {
            let (m, r) = self.eval(arguments[0], scope, depth);
            match r {
                Err(e) => (m, Err(e)),
                Ok(c) => match truth(m.heap.value_of(c)) {
                    Boolean::True => m.eval(arguments[1], scope, depth),
                    Boolean::Maybe => if arguments.len() > 3 {
                        m.eval(arguments[3], scope, depth)
                    } else if arguments.len() > 2 {
                        m.eval(arguments[2], scope, depth)
                    } else {
                        m.give_undefined()
                    },
                    Boolean::False => if arguments.len() > 2 {
                        m.eval(arguments[2], scope, depth)
                    } else {
                        m.give_undefined()
                    },
                },
            }
        }
    }
}

/// Looking a name up keeps a tidy machine tidy.
pub proof fn lemma_lookup_tidy(m: MachineView, scope: usize, name: Seq<char>)
    requires
        m.tidy(),
    ensures
        m.lookup(scope, name).0.tidy(),
{
    lemma_state_keeps_unique(
        m.state,
        m.heap,
        scope,
        name,
        Pointer::ConstConst(0),
        Lifetime::Default,
    );
    let v = default_value_spec(name, regex_matches(function_pattern(), name));
    lemma_heap_keeps_keys(
        m.heap,
        v,
        VarType::ConstConst,
        Pointer::ConstConst(0),
        Pointer::ConstConst(0),
        0,
        undefined(),
        ListenerView { fragment: SyntaxView::Block(Seq::empty()), scope: 0 },
    );
}

/// The names that occur in a condition.
pub fn find_idents_in_syntax(syn: &Syntax) -> (r: Vec<Vec<char>>)
    ensures
        views(r@) == free_idents(syn@),
    decreases syn,
{
    let mut out: Vec<Vec<char>> = Vec::new();
    assert(views(out@) =~= Seq::empty());
    match syn {
        Syntax::Ident(name) => {
            out.push(copy_text(name));
            assert(views(out@) =~= seq![name@]);
        },
        Syntax::Block(list) => {
            proof {
                lemma_models(*list);
            }
            let mut i: usize = 0;
            assert(views(list@).take(0) =~= Seq::empty());
            while i < list.len()
                invariant
                    i <= list.len(),
                    syn is Block,
                    syn->Block_0 == *list,
                    views(out@) == free_idents_of(views(list@).take(i as int)),
                decreases list.len() - i,
            {
                let more = find_idents_in_syntax(&list[i]);
                proof {
                    let t = views(list@).take(i + 1);
                    assert(t.drop_last() =~= views(list@).take(i as int));
                    assert(t.last() == list@[i as int]@);
                }
                extend_texts(&mut out, &more);
                i += 1;
            }
            assert(views(list@).take(list.len() as int) =~= views(list@));
        },
        Syntax::Call(callee, arguments) => {
            proof {
                lemma_models(*arguments);
            }
            let mut i: usize = 0;
            assert(views(arguments@).take(0) =~= Seq::empty());
            while i < arguments.len()
                invariant
                    i <= arguments.len(),
                    syn is Call,
                    syn->Call_1 == *arguments,
                    views(out@) == free_idents_of(views(arguments@).take(i as int)),
                decreases arguments.len() - i,
            {
                let more = find_idents_in_syntax(&arguments[i]);
                proof {
                    let t = views(arguments@).take(i + 1);
                    assert(t.drop_last() =~= views(arguments@).take(i as int));
                    assert(t.last() == arguments@[i as int]@);
                }
                extend_texts(&mut out, &more);
                i += 1;
            }
            assert(views(arguments@).take(arguments.len() as int) =~= views(arguments@));
            let more = find_idents_in_syntax(callee);
            extend_texts(&mut out, &more);
        },
        Syntax::UnaryOperation(_, operand) => {
            let more = find_idents_in_syntax(operand);
            extend_texts(&mut out, &more);
            assert(views(out@) =~= free_idents(operand@));
        },
        Syntax::Statement(_, inner, _) => {
            let more = find_idents_in_syntax(inner);
            extend_texts(&mut out, &more);
            assert(views(out@) =~= free_idents(inner@));
        },
        Syntax::Declare(_, _, value) => {
            let more = find_idents_in_syntax(value);
            extend_texts(&mut out, &more);
            assert(views(out@) =~= free_idents(value@));
        },
        Syntax::Function(_, body) => {
            let more = find_idents_in_syntax(body);
            extend_texts(&mut out, &more);
            assert(views(out@) =~= free_idents(body@));
        },
        Syntax::String(segments) => {
            let mut i: usize = 0;
            assert(views(segments@).take(0) =~= Seq::empty());
            while i < segments.len()
                invariant
                    i <= segments.len(),
                    views(out@) == segment_idents(views(segments@).take(i as int)),
                decreases segments.len() - i,
            {
                let ghost before = views(out@);
                proof {
                    let t = views(segments@).take(i + 1);
                    assert(t.drop_last() =~= views(segments@).take(i as int));
                    assert(t.last() == segments@[i as int]@);
                }
                if let StringSegment::Ident(name) = &segments[i] {
                    out.push(copy_text(name));
                    assert(views(out@) =~= before + seq![name@]);
                } else {
                    assert(before + Seq::<Seq<char>>::empty() =~= before);
                }
                i += 1;
            }
            assert(views(segments@).take(segments.len() as int) =~= views(segments@));
        },
        Syntax::Operation(lhs, _, rhs) => {
            let left = find_idents_in_syntax(lhs);
            extend_texts(&mut out, &left);
            let right = find_idents_in_syntax(rhs);
            extend_texts(&mut out, &right);
            assert(views(out@) =~= free_idents(lhs@) + free_idents(rhs@));
        },
    }
    out
}

/// Appends copies of the texts of `more` to `out`.
fn extend_texts(out: &mut Vec<Vec<char>>, more: &Vec<Vec<char>>)
    ensures
        views(final(out)@) == views(old(out)@) + views(more@),
{
    let mut i: usize = 0;
    assert(views(out@) =~= views(old(out)@) + views(more@).take(0));
    while i < more.len()
        invariant
            i <= more.len(),
            views(out@) == views(old(out)@) + views(more@).take(i as int),
        decreases more.len() - i,
    {
        let ghost before = views(out@);
        out.push(copy_text(&more[i]));
        assert(views(out@) =~= before.push(more@[i as int]@));
        assert(views(more@).take(i + 1) =~= views(more@).take(i as int).push(more@[i as int]@));
        i += 1;
    }
    assert(views(more@).take(more.len() as int) =~= views(more@));
}

/// The names of a parameter list.
fn names_of(syn: &Syntax) -> (r: Option<Vec<Vec<char>>>)
    ensures
        match parameter_names(syn@) {
            Some(names) => r is Some && views(r->Some_0@) == names,
            None => r is None,
        },
{
    let mut names: Vec<Vec<char>> = Vec::new();
    match syn {
        Syntax::Block(list) => {
            proof {
                lemma_models(*list);
            }
            assert(call_arguments(syn@) == views(list@));
            let mut i: usize = 0;
            while i < list.len()
                invariant
                    i <= list.len(),
                    names@.len() == i,
                    call_arguments(syn@) == views(list@),
                    forall|j: int| 0 <= j < i ==> (#[trigger] views(list@)[j]) is Ident,
                    forall|j: int| 0 <= j < i ==> (#[trigger] names@[j])@ == list@[j]@->Ident_0,
                decreases list.len() - i,
            {
                match &list[i] {
                    Syntax::Ident(name) => {
                        names.push(copy_text(name));
                    },
                    _ => {
                        assert(views(list@)[i as int] == list@[i as int]@);
                        assert(!(views(list@)[i as int] is Ident));
                        return None;
                    },
                }
                i += 1;
            }
            assert(views(names@) =~= ident_names(views(list@)));
            Some(names)
        },
        Syntax::Ident(name) => {
            names.push(copy_text(name));
            assert(call_arguments(syn@) == seq![syn@]);
            assert(views(names@) =~= ident_names(seq![syn@]));
            Some(names)
        },
        _ => {
            assert(call_arguments(syn@) == seq![syn@]);
            assert(!(call_arguments(syn@)[0] is Ident));
            None
        },
    }
}

impl Machine {
    /// The machine of a new program.
    pub fn new() -> (r: Machine)
        ensures
            r@ == MachineView::initial(),
            r@.tidy(),
    {
        let mut heap = Heap::new();
        let state = State::new(&mut heap);
        let output: Vec<Vec<char>> = Vec::new();
        assert(views(output@) =~= Seq::empty());
        Machine { heap, state, output }
    }

    /// A new binding, fixed on both axes, to the value `v`.
    pub fn give(&mut self, v: Value) -> (r: Pointer)
        ensures
            (final(self)@, Ok::<Pointer, EvalError>(r)) == old(self)@.give(v@),
            old(self)@.tidy() && well_keyed(v@) ==> final(self)@.tidy(),
    {
        Pointer::from(&mut self.heap, v)
    }

    /// Puts out a line.
    pub fn print(&mut self, line: Vec<char>)
        ensures
            final(self)@ == old(self)@.print(line@),
            old(self)@.tidy() ==> final(self)@.tidy(),
    {
        proof {
            lemma_views_push(self.output@, line);
        }
        self.output.push(line);
    }

    /// Looks a name up.
    pub fn lookup(&mut self, scope: usize, name: &Vec<char>) -> (r: Pointer)
        ensures
            (final(self)@, r) == old(self)@.lookup(scope, name@),
            old(self)@.tidy() ==> final(self)@.tidy(),
    {
        proof {
            if self@.tidy() {
                lemma_lookup_tidy(self@, scope, name@);
            }
        }
        self.state.get(&mut self.heap, scope, name)
    }

    /// Binds a name in a layer.
    pub fn bind(&mut self, scope: usize, name: &Vec<char>, p: Pointer)
        ensures
            final(self)@ == old(self)@.bind(scope, name@, p),
            old(self)@.tidy() ==> final(self)@.tidy(),
    {
        self.state.insert(scope, copy_text(name), p, Lifetime::Default);
    }

    /// Opens a new layer inside `scope`.
    pub fn enter(&mut self, scope: usize) -> (r: usize)
        ensures
            (final(self)@, r) == old(self)@.enter(scope),
            old(self)@.tidy() ==> final(self)@.tidy(),
    {
        self.state.from_parent(scope)
    }

    /// The text of a pointer in a debug statement.
    pub fn debug_text(&self, p: Pointer) -> (r: Vec<char>)
        ensures
            r@ == pointer_debug(self@.heap, p),
    {
        let mut buf: Vec<char> = Vec::new();
        match p {
            Pointer::ConstConst(_) => append_str(&mut buf, "ConstConst("),
            Pointer::ConstVar(_) => append_str(&mut buf, "ConstVar("),
            Pointer::VarConst(_) => append_str(&mut buf, "VarConst("),
            Pointer::VarVar(_) => append_str(&mut buf, "VarVar("),
        }
        let value = p.clone_inner(&self.heap);
        value.write_text(&mut buf);
        append_str(&mut buf, ")");
        assert(buf@ =~= pointer_debug(self@.heap, p));
        buf
    }

    /// The text of the value behind a pointer.
    pub fn text_of(&self, p: Pointer) -> (r: Vec<char>)
        ensures
            r@ == value_text(self@.heap.value_of(p)),
    {
        let value = p.clone_inner(&self.heap);
        value.to_text()
    }

    /// Joins the pieces of a string literal.
    pub fn join(&mut self, segments: &Vec<StringSegment>, scope: usize) -> (r: Vec<char>)
        ensures
            (final(self)@, r@) == old(self)@.join(views(segments@), scope),
            old(self)@.tidy() ==> final(self)@.tidy(),
    {
        let mut text: Vec<char> = Vec::new();
        let mut i: usize = 0;
        assert(views(segments@).take(0) =~= Seq::empty());
        while i < segments.len()
            invariant
                i <= segments.len(),
                (self@, text@) == old(self)@.join(views(segments@).take(i as int), scope),
                old(self)@.tidy() ==> self@.tidy(),
            decreases segments.len() - i,
        {
            proof {
                let t = views(segments@).take(i + 1);
                assert(t.drop_last() =~= views(segments@).take(i as int));
                assert(t.last() == segments@[i as int]@);
            }
            match &segments[i] {
                StringSegment::String(s) => {
                    append(&mut text, s);
                },
                StringSegment::Ident(name) => {
                    let p = self.lookup(scope, name);
                    let piece = self.text_of(p);
                    append(&mut text, &piece);
                },
            }
            i += 1;
        }
        assert(views(segments@).take(segments.len() as int) =~= views(segments@));
        text
    }

    /// Leaves `fragment` as a listener with the cell of each name that has
    /// one.
    pub fn watch(&mut self, names: &Vec<Vec<char>>, fragment: &Syntax, scope: usize)
        ensures
            final(self)@ == old(self)@.watch(
                views(names@),
                names.len() as int,
                fragment@,
                scope,
            ),
            old(self)@.tidy() ==> final(self)@.tidy(),
    {
        let mut i: usize = 0;
        while i < names.len()
            invariant
                i <= names.len(),
                self@ == old(self)@.watch(views(names@), i as int, fragment@, scope),
                old(self)@.tidy() ==> self@.tidy(),
            decreases names.len() - i,
        {
            let p = self.lookup(scope, &names[i]);
            if let Some(c) = self.heap.cell_id(p) {
                self.heap.add_event_listener(c, fragment.copy(), scope);
            }
            i += 1;
        }
    }
}

/// Evaluates a program in a machine of its own, with the default budget.
/// Gives the machine as the program left it, and the binding that the
/// program stands for.
pub fn interpret(src: &Syntax) -> (r: (Machine, Result<Pointer, EvalError>))
    ensures
        (r.0@, r.1) == MachineView::initial().eval(src@, 0, DEFAULT_DEPTH as nat),
        r.0@.tidy(),
{
    let mut m = Machine::new();
    let r = inner_interpret(src, &mut m, 0, DEFAULT_DEPTH);
    (m, r)
}

/// The budget of nested steps that `interpret` gives a program.
pub const DEFAULT_DEPTH: usize = 1000;

/// Evaluates a tree in a layer of the environment, with a budget of `depth`
/// nested steps.
pub fn inner_interpret(src: &Syntax, m: &mut Machine, scope: usize, depth: usize) -> (r: Result<
    Pointer,
    EvalError,
>)
    ensures
        old(m)@.tidy() ==> final(m)@.tidy(),
        (final(m)@, r) == old(m)@.eval(src@, scope, depth as nat),
    decreases depth, 0nat, 0nat,
{
    if depth == 0 {
        return Err(EvalError::TooDeep);
    }
    let d: usize = depth - 1;
    match src {
        Syntax::Statement(is_debug, inner, level) => {
            if *is_debug && *level >= 3 {
                m.print(inner.to_text());
            }
            match inner_interpret(inner, m, scope, d) {
                Err(e) => Err(e),
                Ok(p) => {
                    if *is_debug {
                        let line = if *level >= 2 {
                            m.debug_text(p)
                        } else {
                            m.text_of(p)
                        };
                        m.print(line);
                        Ok(p)
                    } else {
                        Ok(m.state.undefined)
                    }
                },
            }
        },
        Syntax::UnaryOperation(op, operand) => {
            match inner_interpret(operand, m, scope, d) {
                Err(e) => Err(e),
                Ok(p) => {
                    let value = p.clone_inner(&m.heap);
                    match op {
                        UnaryOperation::Negate => Ok(m.give(value.neg())),
                        UnaryOperation::Increment => {
                            let next = value.add(&Value::Number(Number::one()));
                            change(m, p, next, p, d)
                        },
                        UnaryOperation::Decrement => {
                            let next = value.sub(&Value::Number(Number::one()));
                            change(m, p, next, p, d)
                        },
                    }
                },
            }
        },
        Syntax::Operation(lhs, op, rhs) => interpret_operation(lhs, *op, rhs, m, scope, d),
        Syntax::Block(statements) => {
            proof {
                lemma_models(*statements);
            }
            let inner = m.enter(scope);
            let last = m.state.undefined;
            run_block(statements, m, inner, d, last)
        },
        Syntax::Declare(vt, name, value) => {
            match inner_interpret(value, m, scope, d) {
                Err(e) => Err(e),
                Ok(p) => {
                    let q = p.convert(&mut m.heap, *vt);
                    m.bind(scope, name, q);
                    Ok(m.state.undefined)
                },
            }
        },
        Syntax::String(segments) => {
            let text = m.join(segments, scope);
            Ok(m.give(Value::String(text)))
        },
        Syntax::Call(callee, arguments) => {
            proof {
                lemma_models(*arguments);
            }
            match inner_interpret(callee, m, scope, d) {
                Err(e) => Err(e),
                Ok(f) => interpret_function(f, arguments, m, scope, d),
            }
        },
        Syntax::Ident(name) => Ok(m.lookup(scope, name)),
        Syntax::Function(params, body) => {
            Ok(m.give(Value::Function(copy_texts(params), body.copy())))
        },
    }
}

/// Evaluates the statements of a list in one layer.
pub fn run_block(
    statements: &Vec<Syntax>,
    m: &mut Machine,
    scope: usize,
    depth: usize,
    first: Pointer,
) -> (r: Result<Pointer, EvalError>)
    ensures
        old(m)@.tidy() ==> final(m)@.tidy(),
        (final(m)@, r) == old(m)@.run(views(statements@), 0, scope, depth as nat, first),
    decreases depth, 1nat, 0nat,
{
    let mut last: Pointer = first;
    let mut i: usize = 0;
    while i < statements.len()
        invariant
            i <= statements.len(),
            old(m)@.tidy() ==> m@.tidy(),
            m@.run(views(statements@), i as int, scope, depth as nat, last) == old(m)@.run(
                views(statements@),
                0,
                scope,
                depth as nat,
                first,
            ),
        decreases statements.len() - i,
    {
        match inner_interpret(&statements[i], m, scope, depth) {
            Err(e) => {
                return Err(e);
            },
            Ok(p) => {
                last = p;
            },
        }
        i += 1;
    }
    Ok(last)
}

/// Changes the value behind `target` in place, where it has a cell, and lets
/// the cell react.
pub fn change(m: &mut Machine, target: Pointer, v: Value, result: Pointer, depth: usize) -> (r: Result<
    Pointer,
    EvalError,
>)
    ensures
        old(m)@.tidy() && well_keyed(v@) ==> final(m)@.tidy(),
        (final(m)@, r) == old(m)@.change(target, v@, result, depth as nat),
    decreases depth, 2nat, 0nat,
{
    match m.heap.cell_id(target) {
        None => Ok(result),
        Some(c) => {
            m.heap.write_cell(c, v);
            match update_pointer(m, c, depth) {
                Err(e) => Err(e),
                Ok(_) => Ok(result),
            }
        },
    }
}

/// What follows a change of cell `c`: the waiting cells take its value and
/// react in turn, then its listeners run.
pub fn update_pointer(m: &mut Machine, c: usize, depth: usize) -> (r: Result<Pointer, EvalError>)
    ensures
        old(m)@.tidy() ==> final(m)@.tidy(),
        (final(m)@, r) == old(m)@.react(c, depth as nat),
    decreases depth, 1nat, 0nat,
{
    if depth == 0 {
        return Err(EvalError::TooDeep);
    }
    let d: usize = depth - 1;
    let value = Pointer::ConstVar(c).clone_inner(&m.heap);
    let listeners = m.heap.listeners(c);
    let handles = m.heap.flush_next_handles(c);
    match feed(m, &handles, &value, d) {
        Err(e) => Err(e),
        Ok(_) => fire(m, &listeners, d),
    }
}

/// The waiting cells take `value` and react.
fn feed(m: &mut Machine, handles: &Vec<usize>, value: &Value, depth: usize) -> (r: Result<
    Pointer,
    EvalError,
>)
    ensures
        old(m)@.tidy() && well_keyed(value@) ==> final(m)@.tidy(),
        (final(m)@, r) == old(m)@.feed(handles@, 0, value@, depth as nat),
    decreases depth, 2nat, 0nat,
{
    let mut i: usize = 0;
    while i < handles.len()
        invariant
            i <= handles.len(),
            old(m)@.tidy() && well_keyed(value@) ==> m@.tidy(),
            well_keyed(value@) ==> well_keyed(value@),
            m@.feed(handles@, i as int, value@, depth as nat) == old(m)@.feed(
                handles@,
                0,
                value@,
                depth as nat,
            ),
        decreases handles.len() - i,
    {
        m.heap.write_cell(handles[i], value.copy());
        match update_pointer(m, handles[i], depth) {
            Err(e) => {
                return Err(e);
            },
            Ok(_) => {},
        }
        i += 1;
    }
    Ok(m.state.undefined)
}

/// The listeners run, each in its own layer.
fn fire(m: &mut Machine, listeners: &Vec<Listener>, depth: usize) -> (r: Result<Pointer, EvalError>)
    ensures
        old(m)@.tidy() ==> final(m)@.tidy(),
        (final(m)@, r) == old(m)@.fire(views(listeners@), 0, depth as nat),
    decreases depth, 1nat, 0nat,
{
    let mut i: usize = 0;
    while i < listeners.len()
        invariant
            i <= listeners.len(),
            old(m)@.tidy() ==> m@.tidy(),
            m@.fire(views(listeners@), i as int, depth as nat) == old(m)@.fire(
                views(listeners@),
                0,
                depth as nat,
            ),
        decreases listeners.len() - i,
    {
        match inner_interpret(&listeners[i].fragment, m, listeners[i].scope, depth) {
            Err(e) => {
                return Err(e);
            },
            Ok(_) => {},
        }
        i += 1;
    }
    Ok(m.state.undefined)
}

/// Whether an operator is the dot.
fn is_dot(op: &Operation) -> (r: bool)
    ensures
        r == (*op == Operation::Dot),
{
    match op {
        Operation::Dot => true,
        _ => false,
    }
}

/// Evaluates `lhs op rhs`.
pub fn interpret_operation(
    lhs: &Syntax,
    op: Operation,
    rhs: &Syntax,
    m: &mut Machine,
    scope: usize,
    depth: usize,
) -> (r: Result<Pointer, EvalError>)
    ensures
        old(m)@.tidy() ==> final(m)@.tidy(),
        (final(m)@, r) == old(m)@.operate(lhs@, op, rhs@, scope, depth as nat),
    decreases depth, 4nat, 0nat,
{
    match inner_interpret(lhs, m, scope, depth) {
        Err(e) => Err(e),
        Ok(l) => {
            if is_dot(&op) {
                if let Syntax::Ident(name) = rhs {
                    let is_object: bool = match m.heap.value_ref(l) {
                        Some(Value::Object(_)) => true,
                        Some(_) => false,
                        None => true,
                    };
                    if is_object {
                        return l.dot(&mut m.heap, &Value::String(copy_text(name)));
                    }
                }
            }
            match inner_interpret(rhs, m, scope, depth) {
                Err(e) => Err(e),
                Ok(right) => apply(m, l, op, right, depth),
            }
        },
    }
}

/// Whether an operator changes its left side in place.
fn is_in_place(op: &Operation) -> (r: bool)
    ensures
        r == in_place(*op),
{
    match op {
        Operation::AddEq | Operation::SubEq | Operation::MulEq | Operation::DivEq
        | Operation::ModEq => true,
        _ => false,
    }
}

/// The relation that an operator asks for, where it compares.
fn relation_for(op: &Operation) -> (r: Option<Relation>)
    ensures
        r == relation_of(*op),
{
    match op {
        Operation::Lt => Some(Relation::Less),
        Operation::Le => Some(Relation::LessOrEqual),
        Operation::Gt => Some(Relation::Greater),
        Operation::Ge => Some(Relation::GreaterOrEqual),
        _ => None,
    }
}

/// The value of `a op b` for the operators that compute a value from two.
pub fn binary(op: Operation, a: &Value, b: &Value) -> (r: Value)
    ensures
        r@ == binary_spec(op, a@, b@),
{
    match op {
        Operation::Add | Operation::AddEq => a.add(b),
        Operation::Sub | Operation::SubEq => a.sub(b),
        Operation::Mul | Operation::MulEq => a.mul(b),
        Operation::Div | Operation::DivEq => a.div(b),
        Operation::Mod | Operation::ModEq => a.rem(b),
        Operation::And => a.bitand(b),
        Operation::Or => a.bitor(b),
        _ => Value::empty_object(),
    }
}

/// Applies an operator to two bindings.
pub fn apply(m: &mut Machine, l: Pointer, op: Operation, right: Pointer, depth: usize) -> (r: Result<
    Pointer,
    EvalError,
>)
    ensures
        old(m)@.tidy() ==> final(m)@.tidy(),
        (final(m)@, r) == old(m)@.apply(l, op, right, depth as nat),
    decreases depth, 3nat, 0nat,
{
    match op {
        Operation::Equal(n) => {
            if n <= 1 {
                match l.assign(&mut m.heap, &right) {
                    Err(e) => Err(e),
                    Ok(_) => match m.heap.cell_id(l) {
                        None => Ok(right),
                        Some(c) => match update_pointer(m, c, depth) {
                            Err(e) => Err(e),
                            Ok(_) => Ok(right),
                        },
                    },
                }
            } else {
                let same: bool = l.equals(&m.heap, &right, n - 1);
                Ok(m.give(Value::Boolean(Boolean::from(same))))
            }
        },
        Operation::Dot => {
            let b = right.clone_inner(&m.heap);
            l.dot(&mut m.heap, &b)
        },
        Operation::Arrow => Err(EvalError::UnexpectedArrow),
        _ => {
            let a = l.clone_inner(&m.heap);
            let b = right.clone_inner(&m.heap);
            if let Some(relation) = relation_for(&op) {
                return match a.compare(&b, relation) {
                    Some(holds) => Ok(m.give(Value::Boolean(holds))),
                    None => Err(EvalError::NotComparable),
                };
            }
            let value = binary(op, &a, &b);
            if is_in_place(&op) {
                change(m, l, value, l, depth)
            } else {
                Ok(m.give(value))
            }
        },
    }
}

/// Binds the parameters of a function in the layer `inner`.
fn bind_arguments(
    m: &mut Machine,
    params: &Vec<Vec<char>>,
    arguments: &Vec<Syntax>,
    scope: usize,
    inner: usize,
    depth: usize,
) -> (r: Result<Pointer, EvalError>)
    ensures
        old(m)@.tidy() ==> final(m)@.tidy(),
        (final(m)@, r) == old(m)@.bind_arguments(
            views(params@),
            views(arguments@),
            0,
            scope,
            inner,
            depth as nat,
        ),
    decreases depth, 1nat, 0nat,
{
    let mut i: usize = 0;
    while i < params.len()
        invariant
            i <= params.len(),
            old(m)@.tidy() ==> m@.tidy(),
            m@.bind_arguments(
                views(params@),
                views(arguments@),
                i as int,
                scope,
                inner,
                depth as nat,
            ) == old(m)@.bind_arguments(
                views(params@),
                views(arguments@),
                0,
                scope,
                inner,
                depth as nat,
            ),
        decreases params.len() - i,
    {
        let p: Pointer = if i < arguments.len() {
            match inner_interpret(&arguments[i], m, scope, depth) {
                Err(e) => {
                    return Err(e);
                },
                Ok(p) => p,
            }
        } else {
            m.state.undefined
        };
        m.bind(inner, &params[i], p);
        i += 1;
    }
    Ok(m.state.undefined)
}

/// `if` with a condition, a body, and optionally a body for false and a body
/// for maybe.
fn call_if(m: &mut Machine, arguments: &Vec<Syntax>, scope: usize, depth: usize) -> (r: Result<
    Pointer,
    EvalError,
>)
    ensures
        old(m)@.tidy() ==> final(m)@.tidy(),
        (final(m)@, r) == old(m)@.call_if(views(arguments@), scope, depth as nat),
    decreases depth, 3nat, 0nat,
{
    let n: usize = arguments.len();
    if n < 2 || n > 4 {
        return Err(EvalError::IfArity);
    }
    match inner_interpret(&arguments[0], m, scope, depth) {
        Err(e) => Err(e),
        Ok(c) => {
            let condition = c.clone_inner(&m.heap);
            match condition.bool() {
                Boolean::True => inner_interpret(&arguments[1], m, scope, depth),
                Boolean::Maybe => {
                    if n > 3 {
                        inner_interpret(&arguments[3], m, scope, depth)
                    } else if n > 2 {
                        inner_interpret(&arguments[2], m, scope, depth)
                    } else {
                        Ok(m.state.undefined)
                    }
                },
                Boolean::False => {
                    if n > 2 {
                        inner_interpret(&arguments[2], m, scope, depth)
                    } else {
                        Ok(m.state.undefined)
                    }
                },
            }
        },
    }
}

/// The name that a tree is, where it is one.
fn ident_of(syn: &Syntax) -> (r: Option<&Vec<char>>)
    ensures
        match r {
            Some(name) => syn@ == SyntaxView::Ident(name@),
            None => !(syn@ is Ident),
        },
{
    match syn {
        Syntax::Ident(name) => Some(name),
        _ => None,
    }
}

/// Calls the value behind `f` with the given arguments.
pub fn interpret_function(
    f: Pointer,
    arguments: &Vec<Syntax>,
    m: &mut Machine,
    scope: usize,
    depth: usize,
) -> (r: Result<Pointer, EvalError>)
    ensures
        old(m)@.tidy() ==> final(m)@.tidy(),
        (final(m)@, r) == old(m)@.call(f, views(arguments@), scope, depth as nat),
    decreases depth, 5nat, 0nat,
{
    let callee = f.clone_inner(&m.heap);
    match callee {
        Value::Keyword(Keyword::If) => call_if(m, arguments, scope, depth),
        Value::Keyword(Keyword::Delete) => call_delete(m, arguments, scope),
        Value::Keyword(Keyword::Forget) => call_forget(m, arguments, scope),
        Value::Keyword(Keyword::Previous) => call_previous(m, arguments, scope, depth),
        Value::Keyword(Keyword::Next) => call_next(m, arguments, scope, depth),
        Value::Keyword(Keyword::When) => call_when(m, arguments, scope),
        Value::Keyword(Keyword::Function) => call_function(m, arguments, scope),
        Value::Keyword(Keyword::Class) => call_class(m, arguments, scope),
        Value::Keyword(Keyword::New) => call_new(m, arguments, scope, depth),
        Value::Keyword(Keyword::Eval) => call_eval(m, arguments, scope, depth),
        Value::Object(members) => {
            proof {
                lemma_member_models(members);
            }
            call_object(m, f, &members, arguments, scope, depth)
        },
        Value::Function(params, body) => call_body(m, &params, &body, arguments, scope, depth),
        other => call_other(m, &other, arguments, scope, depth),
    }
}

/// `delete` with one name binds the name to undefined where it is bound.
fn call_delete(m: &mut Machine, arguments: &Vec<Syntax>, scope: usize) -> (r: Result<
    Pointer,
    EvalError,
>)
    ensures
        old(m)@.tidy() ==> final(m)@.tidy(),
        (final(m)@, r) == old(m)@.call_delete(views(arguments@), scope),
{
    if arguments.len() == 1 {
        if let Some(key) = ident_of(&arguments[0]) {
            m.state.delete(scope, key);
        }
    }
    Ok(m.state.undefined)
}

/// `forget` with one name binds the name to undefined in the layer of the
/// call.
fn call_forget(m: &mut Machine, arguments: &Vec<Syntax>, scope: usize) -> (r: Result<
    Pointer,
    EvalError,
>)
    ensures
        old(m)@.tidy() ==> final(m)@.tidy(),
        (final(m)@, r) == old(m)@.call_forget(views(arguments@), scope),
{
    if arguments.len() == 1 {
        if let Some(name) = ident_of(&arguments[0]) {
            let u = m.state.undefined;
            m.bind(scope, name, u);
            return Ok(m.state.undefined);
        }
    }
    Err(EvalError::ForgetArity)
}

/// `previous` gives the value that the cell of its argument held before its
/// last change.
fn call_previous(m: &mut Machine, arguments: &Vec<Syntax>, scope: usize, depth: usize) -> (r: Result<
    Pointer,
    EvalError,
>)
    ensures
        old(m)@.tidy() ==> final(m)@.tidy(),
        (final(m)@, r) == old(m)@.call_previous(views(arguments@), scope, depth as nat),
    decreases depth, 3nat, 0nat,
{
    if arguments.len() != 1 {
        return Err(EvalError::PreviousArity);
    }
    match inner_interpret(&arguments[0], m, scope, depth) {
        Err(e) => Err(e),
        Ok(p) => match m.heap.cell_id(p) {
            Some(c) => match m.heap.previous(c) {
                Some(v) => Ok(m.give(v)),
                None => Ok(m.state.undefined),
            },
            None => Ok(m.state.undefined),
        },
    }
}

/// `next` gives a new cell that takes the value of the cell of its argument
/// at that cell's next change.
fn call_next(m: &mut Machine, arguments: &Vec<Syntax>, scope: usize, depth: usize) -> (r: Result<
    Pointer,
    EvalError,
>)
    ensures
        old(m)@.tidy() ==> final(m)@.tidy(),
        (final(m)@, r) == old(m)@.call_next(views(arguments@), scope, depth as nat),
    decreases depth, 3nat, 0nat,
{
    if arguments.len() != 1 {
        return Err(EvalError::NextArity);
    }
    match inner_interpret(&arguments[0], m, scope, depth) {
        Err(e) => Err(e),
        Ok(p) => match m.heap.cell_id(p) {
            Some(c) => {
                let handle = m.heap.alloc_cell(Value::empty_object());
                m.heap.add_next_handle(c, handle);
                Ok(Pointer::ConstVar(handle))
            },
            None => Err(EvalError::NextOfConst),
        },
    }
}

/// `when` leaves `if(condition, body)` as a listener with the cells of the
/// names of the condition.
fn call_when(m: &mut Machine, arguments: &Vec<Syntax>, scope: usize) -> (r: Result<
    Pointer,
    EvalError,
>)
    ensures
        old(m)@.tidy() ==> final(m)@.tidy(),
        (final(m)@, r) == old(m)@.call_when(views(arguments@), scope),
{
    if arguments.len() != 2 {
        return Err(EvalError::WhenArity);
    }
    let names = find_idents_in_syntax(&arguments[0]);
    let mut pair: Vec<Syntax> = Vec::new();
    pair.push(arguments[0].copy());
    pair.push(arguments[1].copy());
    let callee = Syntax::Ident(chars_of("if"));
    proof {
        lemma_models(pair);
        assert(views(pair@) =~= seq![arguments@[0]@, arguments@[1]@]);
        assert(callee@ == SyntaxView::Ident("if"@));
    }
    let fragment = Syntax::Call(Box::new(callee), pair);
    m.watch(&names, &fragment, scope);
    Ok(m.state.undefined)
}

/// `function` with a name, parameters and a body binds the name to the
/// function.
fn call_function(m: &mut Machine, arguments: &Vec<Syntax>, scope: usize) -> (r: Result<
    Pointer,
    EvalError,
>)
    ensures
        old(m)@.tidy() ==> final(m)@.tidy(),
        (final(m)@, r) == old(m)@.call_function(views(arguments@), scope),
{
    if arguments.len() == 3 {
        if let Some(name) = ident_of(&arguments[0]) {
            return match names_of(&arguments[1]) {
                None => Err(EvalError::BadParameterName),
                Some(names) => {
                    let p = m.give(Value::Function(names, arguments[2].copy()));
                    m.bind(scope, name, p);
                    Ok(m.state.undefined)
                },
            };
        }
    }
    Err(EvalError::FunctionArguments)
}

/// `class` with a name and a body binds the name to a cell that holds the
/// class.
fn call_class(m: &mut Machine, arguments: &Vec<Syntax>, scope: usize) -> (r: Result<
    Pointer,
    EvalError,
>)
    ensures
        old(m)@.tidy() ==> final(m)@.tidy(),
        (final(m)@, r) == old(m)@.call_class(views(arguments@), scope),
{
    if arguments.len() == 2 {
        if let Some(name) = ident_of(&arguments[0]) {
            let body: Vec<Syntax> = match &arguments[1] {
                Syntax::Block(body) => {
                    proof {
                        lemma_models(*body);
                    }
                    copy_syntaxes(body)
                },
                other => {
                    let mut single: Vec<Syntax> = Vec::new();
                    single.push(other.copy());
                    assert(views(single@) =~= seq![other@]);
                    single
                },
            };
            let c = m.heap.alloc_cell(Value::Class(body));
            m.bind(scope, name, Pointer::ConstVar(c));
            return Ok(m.state.undefined);
        }
    }
    Err(EvalError::ClassArguments)
}

/// `new` runs the body of a class in a new layer and gives the bindings of
/// that layer as an object.
fn call_new(m: &mut Machine, arguments: &Vec<Syntax>, scope: usize, depth: usize) -> (r: Result<
    Pointer,
    EvalError,
>)
    ensures
        old(m)@.tidy() ==> final(m)@.tidy(),
        (final(m)@, r) == old(m)@.call_new(views(arguments@), scope, depth as nat),
    decreases depth, 3nat, 0nat,
{
    if arguments.len() != 1 {
        return Err(EvalError::NewArity);
    }
    match inner_interpret(&arguments[0], m, scope, depth) {
        Err(e) => Err(e),
        Ok(p) => match p.clone_inner(&m.heap) {
            Value::Class(body) => {
                let inner = m.enter(scope);
                let first = m.state.undefined;
                match run_block(&body, m, inner, depth, first) {
                    Err(e) => Err(e),
                    Ok(_) => {
                        let members = m.state.locals_to_object(inner);
                        proof {
                            lemma_member_models(members);
                        }
                        Ok(m.give(Value::Object(members)))
                    },
                }
            },
            _ => Err(EvalError::NotAClass),
        },
    }
}

/// `eval` reads the text of its argument as a program and evaluates it in the
/// layer of the call.
fn call_eval(m: &mut Machine, arguments: &Vec<Syntax>, scope: usize, depth: usize) -> (r: Result<
    Pointer,
    EvalError,
>)
    ensures
        old(m)@.tidy() ==> final(m)@.tidy(),
        (final(m)@, r) == old(m)@.call_eval(views(arguments@), scope, depth as nat),
    decreases depth, 3nat, 0nat,
{
    if arguments.len() != 1 {
        return Err(EvalError::EvalArity);
    }
    match inner_interpret(&arguments[0], m, scope, depth) {
        Err(e) => Err(e),
        Ok(p) => {
            let text = m.text_of(p);
            match tokenize_chars(&text) {
                Err(e) => Err(EvalError::Lex(e)),
                Ok(tokens) => match parse(tokens) {
                    Err(e) => Err(EvalError::Parse(e)),
                    Ok(tree) => inner_interpret(&tree, m, scope, depth),
                },
            }
        },
    }
}

/// Calls the entry `call` of an object, in a new layer that binds `self` to
/// the object.
fn call_object(
    m: &mut Machine,
    f: Pointer,
    members: &Vec<Member>,
    arguments: &Vec<Syntax>,
    scope: usize,
    depth: usize,
) -> (r: Result<Pointer, EvalError>)
    ensures
        old(m)@.tidy() ==> final(m)@.tidy(),
        (final(m)@, r) == old(m)@.call_object(
            f,
            views(members@),
            views(arguments@),
            scope,
            depth as nat,
        ),
    decreases depth, 4nat, 0nat,
{
    match lookup_member(members, &Value::String(chars_of("call"))) {
        None => Err(EvalError::NotCallable),
        Some(method) => {
            if depth == 0 {
                return Err(EvalError::TooDeep);
            }
            let inner = m.enter(scope);
            m.bind(inner, &chars_of("self"), f);
            interpret_function(method, arguments, m, inner, depth - 1)
        },
    }
}

/// Calls a function: binds its parameters in a new layer and evaluates its
/// body there.
fn call_body(
    m: &mut Machine,
    params: &Vec<Vec<char>>,
    body: &Syntax,
    arguments: &Vec<Syntax>,
    scope: usize,
    depth: usize,
) -> (r: Result<Pointer, EvalError>)
    ensures
        old(m)@.tidy() ==> final(m)@.tidy(),
        (final(m)@, r) == old(m)@.call_body(
            views(params@),
            body@,
            views(arguments@),
            scope,
            depth as nat,
        ),
    decreases depth, 3nat, 0nat,
{
    let inner = m.enter(scope);
    match bind_arguments(m, params, arguments, scope, inner, depth) {
        Err(e) => Err(e),
        Ok(_) => inner_interpret(body, m, inner, depth),
    }
}

/// Multiplies any other value by the one argument of the call.
fn call_other(
    m: &mut Machine,
    other: &Value,
    arguments: &Vec<Syntax>,
    scope: usize,
    depth: usize,
) -> (r: Result<Pointer, EvalError>)
    ensures
        old(m)@.tidy() && well_keyed(other@) ==> final(m)@.tidy(),
        (final(m)@, r) == old(m)@.call_other(other@, views(arguments@), scope, depth as nat),
    decreases depth, 3nat, 0nat,
{
    if arguments.len() != 1 {
        return Err(EvalError::NotCallable);
    }
    match inner_interpret(&arguments[0], m, scope, depth) {
        Err(e) => Err(e),
        Ok(p) => {
            let b = p.clone_inner(&m.heap);
            Ok(m.give(other.mul(&b)))
        },
    }
}

} // verus!
