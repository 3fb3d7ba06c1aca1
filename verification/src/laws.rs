//! What holds of every evaluation.

use vstd::prelude::*;
use crate::error::EvalError;
use crate::interpreter::{binary_spec, in_place, MachineView};
use crate::pointer::{lemma_assign, HeapView, ListenerView, Pointer};
use crate::state::{seeded, seeds, BindingView};
use crate::syntax::{Operation, SyntaxView, VarType};
use crate::value::{eq_spec, undefined, ValueView};

verus! {

/// A block without statements gives the undefined binding of the
/// environment, whatever the machine, and leaves the heap as it is.
pub proof fn lemma_empty_block(m: MachineView, scope: usize, depth: nat)
    requires
        depth > 0,
    ensures
        m.eval(SyntaxView::Block(Seq::empty()), scope, depth).1 == Ok::<Pointer, EvalError>(
            m.state.undefined,
        ),
        m.eval(SyntaxView::Block(Seq::empty()), scope, depth).0.heap == m.heap,
{
    let (entered, inner) = m.enter(scope);
    assert(entered.run(Seq::empty(), 0, inner, (depth - 1) as nat, entered.state.undefined) == (
        entered,
        Ok::<Pointer, EvalError>(entered.state.undefined),
    ));
}

/// Seeding puts one value into the heap for each name, and nothing else.
proof fn lemma_seeded_values(
    h: HeapView,
    bindings: Seq<BindingView>,
    list: Seq<(Seq<char>, ValueView)>,
    n: int,
)
    requires
        0 <= n <= list.len(),
        h.values.len() + n <= usize::MAX,
    ensures
        seeded(h, bindings, list, n).0.values.len() == h.values.len() + n,
    decreases n,
{
    if n > 0 {
        lemma_seeded_values(h, bindings, list, n - 1);
    }
}

/// In the machine of a new program the undefined binding of the environment
/// points to the undefined value.
pub proof fn lemma_initial_undefined()
    ensures
        MachineView::initial().heap.value_of(MachineView::initial().state.undefined)
            == undefined(),
{
    let h = HeapView::empty();
    assert(seeds().len() == 19);
    lemma_seeded_values(h, Seq::empty(), seeds(), 19);
    let (h1, bindings) = seeded(h, Seq::empty(), seeds(), seeds().len() as int);
    assert(h1.values.len() == 19);
    let (h2, u) = h1.fresh(undefined(), VarType::ConstConst);
    assert(u == Pointer::ConstConst(19));
    assert(h2.values[19] == undefined());
    assert(h2.value_of(u) == undefined());
}

/// An assignment through a binding that cannot be bound anew always fails
/// and leaves the machine as it is.
pub proof fn lemma_assignment_to_const(m: MachineView, l: Pointer, right: Pointer, depth: nat)
    requires
        !l.binding_var(),
    ensures
        m.apply(l, Operation::Equal(1), right, depth) == m.fail(EvalError::AssignToConst),
{
}

/// An assignment through a binding to a slot that holds a value always
/// succeeds where the binding points to something: it gives the right side,
/// and the binding then points to a value that equals the value of the right
/// side at precision 3.
pub proof fn lemma_assignment_to_slot(m: MachineView, l: Pointer, right: Pointer, depth: nat)
    requires
        m.heap.indexable(),
        l is VarConst,
        m.heap.valid(l),
    ensures
        m.apply(l, Operation::Equal(1), right, depth).1 == Ok::<Pointer, EvalError>(right),
        eq_spec(
            m.apply(l, Operation::Equal(1), right, depth).0.heap.value_of(l),
            m.heap.value_of(right),
            3,
        ),
{
    lemma_assign(m.heap, l, right);
}

/// An operator that changes its left side in place changes nothing where
/// the left side has no cell, and gives the left side.
pub proof fn lemma_in_place_needs_cell(
    m: MachineView,
    l: Pointer,
    op: Operation,
    right: Pointer,
    depth: nat,
)
    requires
        in_place(op),
        !l.cell_var(),
    ensures
        m.apply(l, op, right, depth) == (m, Ok::<Pointer, EvalError>(l)),
{
}

/// A cell is quiet when no cell waits for its next change and nothing
/// listens to it.
pub open spec fn quiet(h: HeapView, c: usize) -> bool {
    h.next_handles(c).len() == 0 && h.listeners(c).len() == 0
}

/// Whether the reaction of a cell to a change ends well and leaves the cell
/// unwritten: with the value and the remembered value that it has when the
/// reaction starts.
pub open spec fn settles(w: MachineView, c: usize, depth: nat) -> bool {
    let (after, r) = w.react(c, depth);
    &&& r is Ok
    &&& c < w.heap.cells.len()
    &&& c < after.heap.cells.len()
    &&& after.heap.cells[c as int].value == w.heap.cells[c as int].value
    &&& after.heap.cells[c as int].previous == w.heap.cells[c as int].previous
}

/// The reaction of a quiet cell changes nothing, so it leaves the cell
/// unwritten.
pub proof fn lemma_quiet_settles(w: MachineView, c: usize, depth: nat)
    requires
        quiet(w.heap, c),
        c < w.heap.cells.len(),
        depth > 0,
    ensures
        w.react(c, depth) == w.give_undefined(),
        settles(w, c, depth),
{
    let h = w.heap;
    assert(h.next_handles(c) =~= Seq::empty());
    assert(h.listeners(c) =~= Seq::empty());
    assert(h.clear_next_handles(c).cells =~= h.cells);
    assert(w.with_heap(h.clear_next_handles(c)) == w);
    let d = (depth - 1) as nat;
    assert(w.feed(Seq::empty(), 0, h.value_of(Pointer::ConstVar(c)), d) == w.give_undefined());
    assert(w.fire(Seq::empty(), 0, d) == w.give_undefined());
}

/// An operator that changes its left side in place puts the value it
/// computes into the cell of its left side, and the cell remembers the value
/// it held before: for every cell whose reaction leaves it unwritten.
pub proof fn lemma_in_place_changes_cell(
    m: MachineView,
    l: Pointer,
    op: Operation,
    right: Pointer,
    depth: nat,
)
    requires
        in_place(op),
        m.heap.cell_id(l) is Some,
        settles(
            m.with_heap(
                m.heap.write_cell(
                    m.heap.cell_id(l)->Some_0,
                    binary_spec(op, m.heap.value_of(l), m.heap.value_of(right)),
                ),
            ),
            m.heap.cell_id(l)->Some_0,
            depth,
        ),
    ensures
        ({
            let c = m.heap.cell_id(l)->Some_0;
            let (after, r) = m.apply(l, op, right, depth);
            &&& r == Ok::<Pointer, EvalError>(l)
            &&& after.heap.value_of(Pointer::ConstVar(c)) == binary_spec(
                op,
                m.heap.value_of(l),
                m.heap.value_of(right),
            )
            &&& after.heap.previous(c) == Some(m.heap.value_of(l))
        }),
{
}

/// An assignment through a binding to a slot that holds a cell succeeds where
/// the binding points to something: it gives the right side, the cell then
/// holds a value that equals the value of the right side at precision 3, and
/// the cell remembers the value that the binding pointed to before. This
/// holds for every cell whose reaction leaves it unwritten.
pub proof fn lemma_assignment_to_cell(m: MachineView, l: Pointer, right: Pointer, depth: nat)
    requires
        m.heap.indexable(),
        l is VarVar,
        m.heap.valid(l),
        settles(m.with_heap(m.heap.assign(l, right)->Ok_0), m.heap.cell_id(l)->Some_0, depth),
    ensures
        ({
            let c = m.heap.cell_id(l)->Some_0;
            let (after, r) = m.apply(l, Operation::Equal(1), right, depth);
            &&& r == Ok::<Pointer, EvalError>(right)
            &&& (after, r) == (
                m.with_heap(m.heap.assign(l, right)->Ok_0).react(c, depth).0,
                Ok::<Pointer, EvalError>(right),
            )
            &&& eq_spec(after.heap.value_of(Pointer::ConstVar(c)), m.heap.value_of(right), 3)
            &&& after.heap.previous(c) == Some(m.heap.value_of(l))
        }),
{
    lemma_assign(m.heap, l, right);
    let c = m.heap.cell_id(l)->Some_0;
    let h = m.heap.assign(l, right)->Ok_0;
    assert(h.cell_id(l) == Some(c));
    assert(h.cells[c as int].value == m.heap.value_of(right));
}

/// Whether a cell has a listener.
pub open spec fn listens(h: HeapView, c: usize, listener: ListenerView) -> bool {
    exists|j: int| 0 <= j < h.listeners(c).len() && h.listeners(c)[j] == listener
}

/// Looking a name up leaves every cell as it is.
proof fn lemma_lookup_keeps_cells(m: MachineView, scope: usize, name: Seq<char>)
    ensures
        m.lookup(scope, name).0.heap.cells == m.heap.cells,
{
}

/// One more name watched takes no listener from any cell.
proof fn lemma_watch_keeps_listeners(
    m: MachineView,
    names: Seq<Seq<char>>,
    n: int,
    fragment: SyntaxView,
    scope: usize,
    c: usize,
    listener: ListenerView,
)
    requires
        0 < n <= names.len(),
        listens(m.watch(names, n - 1, fragment, scope).heap, c, listener),
    ensures
        listens(m.watch(names, n, fragment, scope).heap, c, listener),
{
    let before = m.watch(names, n - 1, fragment, scope);
    let j = choose|j: int|
        0 <= j < before.heap.listeners(c).len() && before.heap.listeners(c)[j] == listener;
    let (found, p) = before.lookup(scope, names[n - 1]);
    lemma_lookup_keeps_cells(before, scope, names[n - 1]);
    let after = m.watch(names, n, fragment, scope);
    assert(after.heap.listeners(c)[j] == listener);
}

/// After `when`, the cell of every name of the condition that had one when
/// the name was looked up listens with the fragment, in the layer of the
/// `when`.
pub proof fn lemma_watch_leaves_listener(
    m: MachineView,
    names: Seq<Seq<char>>,
    n: int,
    fragment: SyntaxView,
    scope: usize,
    i: int,
)
    requires
        0 <= i < n <= names.len(),
    ensures
        ({
            let before = m.watch(names, i, fragment, scope);
            let (found, p) = before.lookup(scope, names[i]);
            found.heap.cell_id(p) matches Some(c) ==> listens(
                m.watch(names, n, fragment, scope).heap,
                c,
                ListenerView { fragment, scope },
            )
        }),
    decreases n - i,
{
    let before = m.watch(names, i, fragment, scope);
    let (found, p) = before.lookup(scope, names[i]);
    if let Some(c) = found.heap.cell_id(p) {
        let listener = ListenerView { fragment, scope };
        if n == i + 1 {
            let after = m.watch(names, n, fragment, scope);
            let last = after.heap.listeners(c).len() - 1;
            assert(after.heap.listeners(c)[last] == listener);
        } else {
            lemma_watch_leaves_listener(m, names, n - 1, fragment, scope, i);
            lemma_watch_keeps_listeners(m, names, n, fragment, scope, c, listener);
        }
    }
}

/// `previous` of a name, right after an assignment through the binding of
/// that name, gives the value that the name had before the assignment. This
/// holds where the name is bound to a slot that holds a cell, the reaction of
/// the cell to the assignment leaves the cell unwritten, and the name is
/// bound to the cell as before when the reaction has ended.
pub proof fn lemma_previous_after_assignment(
    m: MachineView,
    name: Seq<char>,
    scope: usize,
    right: Pointer,
    depth: nat,
)
    requires
        m.heap.indexable(),
        depth > 0,
        m.state.resolve(scope, name) is Some,
        m.state.resolve(scope, name)->Some_0 is VarVar,
        m.heap.valid(m.state.resolve(scope, name)->Some_0),
        ({
            let x = m.state.resolve(scope, name)->Some_0;
            let c = m.heap.cell_id(x)->Some_0;
            let w = m.with_heap(m.heap.assign(x, right)->Ok_0);
            &&& settles(w, c, depth)
            &&& w.react(c, depth).0.state.resolve(scope, name) == Some(x)
            &&& w.react(c, depth).0.heap.cell_id(x) == Some(c)
            &&& w.react(c, depth).0.heap.indexable()
        }),
    ensures
        ({
            let x = m.state.resolve(scope, name)->Some_0;
            let (assigned, r) = m.apply(x, Operation::Equal(1), right, depth);
            let (after, before) = assigned.call_previous(
                seq![SyntaxView::Ident(name)],
                scope,
                depth,
            );
            &&& r is Ok
            &&& before is Ok
            &&& before->Ok_0 is ConstConst
            &&& eq_spec(after.heap.value_of(before->Ok_0), m.heap.value_of(x), 3)
        }),
{
    let x = m.state.resolve(scope, name)->Some_0;
    lemma_assignment_to_cell(m, x, right, depth);
    let c = m.heap.cell_id(x)->Some_0;
    let (assigned, r) = m.apply(x, Operation::Equal(1), right, depth);
    let (looked, p) = assigned.lookup(scope, name);
    assert(p == x);
    assert(looked == assigned);
    assert(assigned.eval(SyntaxView::Ident(name), scope, depth) == (assigned, Ok::<
        Pointer,
        EvalError,
    >(x)));
    let v = m.heap.value_of(x);
    assert(assigned.heap.previous(c) == Some(v));
    let (after, before) = assigned.give(v);
    assert(after.heap.value_of(before->Ok_0) == v);
}

/// `previous` of a name, right after an assignment through the binding of
/// that name to a slot that holds a quiet cell, gives the value that the name
/// had before the assignment.
pub proof fn lemma_previous_after_quiet_assignment(
    m: MachineView,
    name: Seq<char>,
    scope: usize,
    right: Pointer,
    depth: nat,
)
    requires
        m.heap.indexable(),
        depth > 0,
        m.state.resolve(scope, name) is Some,
        m.state.resolve(scope, name)->Some_0 is VarVar,
        m.heap.valid(m.state.resolve(scope, name)->Some_0),
        quiet(m.heap, m.heap.cell_id(m.state.resolve(scope, name)->Some_0)->Some_0),
    ensures
        ({
            let x = m.state.resolve(scope, name)->Some_0;
            let (assigned, r) = m.apply(x, Operation::Equal(1), right, depth);
            let (after, before) = assigned.call_previous(
                seq![SyntaxView::Ident(name)],
                scope,
                depth,
            );
            &&& r is Ok
            &&& before is Ok
            &&& before->Ok_0 is ConstConst
            &&& eq_spec(after.heap.value_of(before->Ok_0), m.heap.value_of(x), 3)
        }),
{
    let x = m.state.resolve(scope, name)->Some_0;
    let c = m.heap.cell_id(x)->Some_0;
    lemma_assign(m.heap, x, right);
    let h = m.heap.assign(x, right)->Ok_0;
    let w = m.with_heap(h);
    assert(h.cell_id(x) == Some(c));
    assert(h.next_handles(c) =~= m.heap.next_handles(c));
    assert(h.listeners(c) =~= m.heap.listeners(c));
    lemma_quiet_settles(w, c, depth);
    lemma_previous_after_assignment(m, name, scope, right, depth);
}

/// What a change of a cell sets off, whether cells wait for it or not: the
/// waiting cells are fed first, and where feeding one of them fails, that
/// failure is the end; else every listener that the cell had when it changed
/// is fired.
pub proof fn lemma_change_reaction(m: MachineView, c: usize, depth: nat)
    requires
        depth > 0,
    ensures
        ({
            let d = (depth - 1) as nat;
            let (fed, r) = m.with_heap(m.heap.clear_next_handles(c)).feed(
                m.heap.next_handles(c),
                0,
                m.heap.value_of(Pointer::ConstVar(c)),
                d,
            );
            m.react(c, depth) == if r is Err {
                (fed, r)
            } else {
                fed.fire(m.heap.listeners(c), 0, d)
            }
        }),
{
}

/// Feeding the waiting cells goes in the order in which they came to wait:
/// the first takes the value and reacts, and where that ends well the rest is
/// fed; the first failure is the end.
pub proof fn lemma_feed_step(
    m: MachineView,
    handles: Seq<usize>,
    i: int,
    value: ValueView,
    depth: nat,
)
    requires
        0 <= i < handles.len(),
    ensures
        ({
            let (after, r) = m.with_heap(m.heap.write_cell(handles[i], value)).react(
                handles[i],
                depth,
            );
            m.feed(handles, i, value, depth) == if r is Err {
                (after, r)
            } else {
                after.feed(handles, i + 1, value, depth)
            }
        }),
{
}

/// Firing runs every listener, in the order in which they were left, each in
/// the layer where it was left: the first is evaluated, and where that ends
/// well the rest is fired; the first failure is the end.
pub proof fn lemma_fire_step(m: MachineView, listeners: Seq<ListenerView>, i: int, depth: nat)
    requires
        0 <= i < listeners.len(),
    ensures
        ({
            let (after, r) = m.eval(listeners[i].fragment, listeners[i].scope, depth);
            m.fire(listeners, i, depth) == if r is Err {
                (after, r)
            } else {
                after.fire(listeners, i + 1, depth)
            }
        }),
{
}

/// Where no cell waits for a change of a cell, the change fires the listeners
/// of the cell.
pub proof fn lemma_change_fires_listeners(m: MachineView, c: usize, depth: nat)
    requires
        depth > 0,
        m.heap.next_handles(c).len() == 0,
    ensures
        m.react(c, depth) == m.fire(m.heap.listeners(c), 0, (depth - 1) as nat),
{
    let d = (depth - 1) as nat;
    let value = m.heap.value_of(Pointer::ConstVar(c));
    assert(m.heap.next_handles(c) =~= Seq::empty());
    if c < m.heap.cells.len() {
        assert(m.heap.clear_next_handles(c).cells =~= m.heap.cells);
    }
    let cleared = m.with_heap(m.heap.clear_next_handles(c));
    assert(cleared == m);
    assert(cleared.feed(Seq::empty(), 0, value, d) == cleared.give_undefined());
}

} // verus!
