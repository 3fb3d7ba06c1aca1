//! Pointers and the heap they point into.
//!
//! What the language shares between bindings lives in a heap of four arenas:
//! values that never change, cells whose value can change in place, slots
//! that hold a value and slots that hold a cell. A pointer is an index into
//! one of them, so sharing is equality of indices. Nothing is ever taken out
//! of the heap, and an index that points to nothing reads as undefined.

use vstd::prelude::*;
use crate::error::EvalError;
use crate::number::Number;
use crate::syntax::{Syntax, SyntaxView, VarType};
use crate::text::{append, lemma_views_push, views};
use crate::value::{
    eq_spec,
    lemma_member_models,
    undefined,
    Boolean,
    Member,
    MemberView,
    Value,
    ValueView,
};

verus! {

/// A binding. The first word says whether the binding may be bound anew, the
/// second whether the value may be changed in place. Each variant holds the
/// index of what it points to in the heap: a value that never changes, a cell,
/// a slot that holds a value, or a slot that holds a cell.
#[derive(Debug, Clone, Copy, PartialEq, Eq, Structural)]
pub enum Pointer {
    ConstConst(usize),
    ConstVar(usize),
    VarConst(usize),
    VarVar(usize),
}

/// A program fragment that is run again, in the scope where it was written,
/// whenever the cell it listens to changes.
#[derive(Debug, PartialEq, Eq)]
pub struct Listener {
    pub fragment: Syntax,
    pub scope: usize,
}

/// The view of a listener: the fragment by its view.
pub ghost struct ListenerView {
    pub fragment: SyntaxView,
    pub scope: usize,
}

impl View for Listener {
    type V = ListenerView;

    open spec fn view(&self) -> ListenerView {
        ListenerView { fragment: self.fragment@, scope: self.scope }
    }
}

/// A cell: a value that can change in place, the value it held before its
/// last change, the cells that wait for its next change, and its listeners.
#[derive(Debug, PartialEq, Eq)]
pub struct MutValue {
    pub value: Value,
    pub previous: Option<Value>,
    pub next_handles: Vec<usize>,
    pub event_listeners: Vec<Listener>,
}

/// The view of a cell: its parts by their views.
pub ghost struct CellView {
    pub value: ValueView,
    pub previous: Option<ValueView>,
    pub next_handles: Seq<usize>,
    pub listeners: Seq<ListenerView>,
}

/// The view of a value that may be missing.
pub open spec fn option_view(o: Option<Value>) -> Option<ValueView> {
    match o {
        Some(v) => Some(v@),
        None => None,
    }
}

impl View for MutValue {
    type V = CellView;

    open spec fn view(&self) -> CellView {
        CellView {
            value: self.value@,
            previous: option_view(self.previous),
            next_handles: self.next_handles@,
            listeners: views(self.event_listeners@),
        }
    }
}

impl CellView {
    /// A cell that has never changed.
    pub open spec fn fresh(v: ValueView) -> CellView {
        CellView { value: v, previous: None, next_handles: Seq::empty(), listeners: Seq::empty() }
    }
}

/// The heap: the four arenas that pointers point into.
#[derive(Debug, PartialEq, Eq)]
pub struct Heap {
    pub values: Vec<Value>,
    pub cells: Vec<MutValue>,
    pub const_slots: Vec<usize>,
    pub var_slots: Vec<usize>,
}

/// The view of a heap: its arenas by their views.
pub ghost struct HeapView {
    pub values: Seq<ValueView>,
    pub cells: Seq<CellView>,
    pub const_slots: Seq<usize>,
    pub var_slots: Seq<usize>,
}

impl View for Heap {
    type V = HeapView;

    open spec fn view(&self) -> HeapView {
        HeapView {
            values: views(self.values@),
            cells: views(self.cells@),
            const_slots: self.const_slots@,
            var_slots: self.var_slots@,
        }
    }
}

/// The first entry of an object with the given key.
pub open spec fn find_member(members: Seq<MemberView>, key: ValueView) -> Option<Pointer>
    decreases members.len(),
{
    if members.len() == 0 {
        None
    } else if members[0].key == key {
        Some(members[0].pointer)
    } else {
        find_member(members.drop_first(), key)
    }
}

impl Pointer {
    /// Whether the binding may be bound anew.
    pub open spec fn binding_var(self) -> bool {
        self is VarConst || self is VarVar
    }

    /// Whether the value may be changed in place.
    pub open spec fn cell_var(self) -> bool {
        self is ConstVar || self is VarVar
    }

    /// The kind of the binding.
    pub open spec fn var_type(self) -> VarType {
        match self {
            Pointer::ConstConst(_) => VarType::ConstConst,
            Pointer::ConstVar(_) => VarType::ConstVar,
            Pointer::VarConst(_) => VarType::VarConst,
            Pointer::VarVar(_) => VarType::VarVar,
        }
    }
}

impl HeapView {
    /// The heap that holds nothing.
    pub open spec fn empty() -> HeapView {
        HeapView {
            values: Seq::empty(),
            cells: Seq::empty(),
            const_slots: Seq::empty(),
            var_slots: Seq::empty(),
        }
    }

    /// Whether a pointer points to something.
    pub open spec fn valid(self, p: Pointer) -> bool {
        match p {
            Pointer::ConstConst(i) => i < self.values.len(),
            Pointer::ConstVar(c) => c < self.cells.len(),
            Pointer::VarConst(s) => s < self.const_slots.len() && self.const_slots[s as int]
                < self.values.len(),
            Pointer::VarVar(s) => s < self.var_slots.len() && self.var_slots[s as int]
                < self.cells.len(),
        }
    }

    /// The index of the unchanging value that a pointer shares, if it shares
    /// one.
    pub open spec fn const_id(self, p: Pointer) -> Option<usize> {
        match p {
            Pointer::ConstConst(i) => Some(i),
            Pointer::VarConst(s) => if s < self.const_slots.len() {
                Some(self.const_slots[s as int])
            } else {
                None
            },
            _ => None,
        }
    }

    /// The index of the cell that a pointer shares, if it shares one.
    pub open spec fn cell_id(self, p: Pointer) -> Option<usize> {
        match p {
            Pointer::ConstVar(c) => if c < self.cells.len() {
                Some(c)
            } else {
                None
            },
            Pointer::VarVar(s) => if s < self.var_slots.len() && self.var_slots[s as int]
                < self.cells.len() {
                Some(self.var_slots[s as int])
            } else {
                None
            },
            _ => None,
        }
    }

    /// The unchanging value at an index; undefined where there is none.
    pub open spec fn value_at(self, i: usize) -> ValueView {
        if i < self.values.len() {
            self.values[i as int]
        } else {
            undefined()
        }
    }

    /// The value that a pointer points to; undefined where it points to
    /// nothing.
    pub open spec fn value_of(self, p: Pointer) -> ValueView {
        match p {
            Pointer::ConstConst(_) | Pointer::VarConst(_) => match self.const_id(p) {
                Some(i) => self.value_at(i),
                None => undefined(),
            },
            Pointer::ConstVar(_) | Pointer::VarVar(_) => match self.cell_id(p) {
                Some(c) => self.cells[c as int].value,
                None => undefined(),
            },
        }
    }

    /// The heap with one more unchanging value.
    pub open spec fn alloc_value(self, v: ValueView) -> HeapView {
        HeapView { values: self.values.push(v), ..self }
    }

    /// The heap with one more cell, which holds `v` and has never changed.
    pub open spec fn alloc_cell(self, v: ValueView) -> HeapView {
        HeapView { cells: self.cells.push(CellView::fresh(v)), ..self }
    }

    /// A new binding of the given kind to a new place that holds `v`.
    pub open spec fn fresh(self, v: ValueView, vt: VarType) -> (HeapView, Pointer) {
        match vt {
            VarType::ConstConst => (
                self.alloc_value(v),
                Pointer::ConstConst(self.values.len() as usize),
            ),
            VarType::ConstVar => (self.alloc_cell(v), Pointer::ConstVar(self.cells.len() as usize)),
            VarType::VarConst => (
                HeapView {
                    const_slots: self.const_slots.push(self.values.len() as usize),
                    ..self.alloc_value(v)
                },
                Pointer::VarConst(self.const_slots.len() as usize),
            ),
            VarType::VarVar => (
                HeapView {
                    var_slots: self.var_slots.push(self.cells.len() as usize),
                    ..self.alloc_cell(v)
                },
                Pointer::VarVar(self.var_slots.len() as usize),
            ),
        }
    }

    /// The unchanging value that stands for a pointer: the one it shares, or
    /// a new snapshot of what it points to.
    pub open spec fn as_const(self, p: Pointer) -> (HeapView, usize) {
        match self.const_id(p) {
            Some(i) => (self, i),
            None => (self.alloc_value(self.value_of(p)), self.values.len() as usize),
        }
    }

    /// The cell that stands for a pointer: the one it shares, or a new cell
    /// that holds what it points to.
    pub open spec fn as_var(self, p: Pointer) -> (HeapView, usize) {
        match self.cell_id(p) {
            Some(c) => (self, c),
            None => (self.alloc_cell(self.value_of(p)), self.cells.len() as usize),
        }
    }

    /// The pointer re-boxed as a binding of another kind.
    pub open spec fn convert(self, p: Pointer, vt: VarType) -> (HeapView, Pointer) {
        match vt {
            VarType::ConstConst => (self.as_const(p).0, Pointer::ConstConst(self.as_const(p).1)),
            VarType::ConstVar => (self.as_var(p).0, Pointer::ConstVar(self.as_var(p).1)),
            VarType::VarConst => {
                let (h, i) = self.as_const(p);
                (
                    HeapView { const_slots: h.const_slots.push(i), ..h },
                    Pointer::VarConst(h.const_slots.len() as usize),
                )
            },
            VarType::VarVar => {
                let (h, c) = self.as_var(p);
                (
                    HeapView { var_slots: h.var_slots.push(c), ..h },
                    Pointer::VarVar(h.var_slots.len() as usize),
                )
            },
        }
    }

    /// The heap after cell `c` has taken the value `v`: the cell remembers
    /// the value it held before.
    pub open spec fn write_cell(self, c: usize, v: ValueView) -> HeapView {
        if c < self.cells.len() {
            HeapView {
                cells: self.cells.update(
                    c as int,
                    CellView {
                        value: v,
                        previous: Some(self.cells[c as int].value),
                        ..self.cells[c as int]
                    },
                ),
                ..self
            }
        } else {
            self
        }
    }

    /// The heap after the cell behind `p`, if there is one, has taken the
    /// value `v`.
    pub open spec fn update_in_place(self, p: Pointer, v: ValueView) -> HeapView {
        match self.cell_id(p) {
            Some(c) => self.write_cell(c, v),
            None => self,
        }
    }

    /// Assignment: refused for a binding that cannot be bound anew. A slot
    /// that holds a value takes the unchanging value that stands for `rhs`;
    /// the cell behind a slot that holds a cell takes the value of `rhs`.
    pub open spec fn assign(self, p: Pointer, rhs: Pointer) -> Result<HeapView, EvalError> {
        match p {
            Pointer::ConstConst(_) | Pointer::ConstVar(_) => Err(EvalError::AssignToConst),
            Pointer::VarConst(s) => if s < self.const_slots.len() {
                let (h, i) = self.as_const(rhs);
                Ok(HeapView { const_slots: h.const_slots.update(s as int, i), ..h })
            } else {
                Err(EvalError::Dangling)
            },
            Pointer::VarVar(_) => match self.cell_id(p) {
                Some(c) => Ok(self.write_cell(c, self.value_of(rhs))),
                None => Err(EvalError::Dangling),
            },
        }
    }

    /// Whether two pointers share one unchanging value or one cell.
    pub open spec fn identical(self, a: Pointer, b: Pointer) -> bool {
        match (self.const_id(a), self.const_id(b)) {
            (Some(i), Some(j)) => i == j,
            _ => match (self.cell_id(a), self.cell_id(b)) {
                (Some(c), Some(d)) => c == d,
                _ => false,
            },
        }
    }

    /// Equality of two pointers: identity from precision 4 on, else graded
    /// equality of their values.
    pub open spec fn equal(self, a: Pointer, b: Pointer, precision: u8) -> bool {
        if precision >= 4 {
            self.identical(a, b)
        } else {
            eq_spec(self.value_of(a), self.value_of(b), precision)
        }
    }

    /// The heap after an entry was added to the object in cell `c`; unchanged
    /// where the cell holds no object.
    pub open spec fn insert_member(self, c: usize, key: ValueView, pointer: Pointer) -> HeapView {
        if c < self.cells.len() && self.cells[c as int].value is Object {
            HeapView {
                cells: self.cells.update(
                    c as int,
                    CellView {
                        value: ValueView::Object(
                            self.cells[c as int].value->Object_0.push(MemberView { key, pointer }),
                        ),
                        ..self.cells[c as int]
                    },
                ),
                ..self
            }
        } else {
            self
        }
    }

    /// The dot: two numbers spell a decimal; an object gives the binding of
    /// a key, and where the key is missing and the object can change in
    /// place, a new undefined binding under it; anything else is undefined.
    pub open spec fn dot(self, p: Pointer, key: ValueView) -> (HeapView, Result<Pointer, EvalError>) {
        match (self.value_of(p), key) {
            (ValueView::Number(x), ValueView::Number(y)) => match Number::parse_spec(
                x.text_spec() + seq!['.'] + y.text_spec(),
            ) {
                Some(n) => {
                    let (h, r) = self.fresh(ValueView::Number(n), VarType::ConstConst);
                    (h, Ok(r))
                },
                None => (self, Err(EvalError::BadDecimal)),
            },
            (ValueView::Object(members), _) => match find_member(members, key) {
                Some(found) => (self, Ok(found)),
                None => match self.cell_id(p) {
                    Some(c) => {
                        let (h, r) = self.fresh(undefined(), VarType::VarVar);
                        (h.insert_member(c, key, r), Ok(r))
                    },
                    None => {
                        let (h, r) = self.fresh(undefined(), VarType::ConstConst);
                        (h, Ok(r))
                    },
                },
            },
            _ => {
                let (h, r) = self.fresh(undefined(), VarType::ConstConst);
                (h, Ok(r))
            },
        }
    }

    /// The heap after cell `handle` came to wait for the next change of cell
    /// `c`.
    pub open spec fn add_next_handle(self, c: usize, handle: usize) -> HeapView {
        if c < self.cells.len() {
            HeapView {
                cells: self.cells.update(
                    c as int,
                    CellView {
                        next_handles: self.cells[c as int].next_handles.push(handle),
                        ..self.cells[c as int]
                    },
                ),
                ..self
            }
        } else {
            self
        }
    }

    /// The cells that wait for the next change of cell `c`, in the order in
    /// which they came.
    pub open spec fn next_handles(self, c: usize) -> Seq<usize> {
        if c < self.cells.len() {
            self.cells[c as int].next_handles
        } else {
            Seq::empty()
        }
    }

    /// The heap after the cells that waited for cell `c` were taken.
    pub open spec fn clear_next_handles(self, c: usize) -> HeapView {
        if c < self.cells.len() {
            HeapView {
                cells: self.cells.update(
                    c as int,
                    CellView { next_handles: Seq::empty(), ..self.cells[c as int] },
                ),
                ..self
            }
        } else {
            self
        }
    }

    /// The heap after cell `c` got one more listener.
    pub open spec fn add_listener(self, c: usize, listener: ListenerView) -> HeapView {
        if c < self.cells.len() {
            HeapView {
                cells: self.cells.update(
                    c as int,
                    CellView {
                        listeners: self.cells[c as int].listeners.push(listener),
                        ..self.cells[c as int]
                    },
                ),
                ..self
            }
        } else {
            self
        }
    }

    /// The listeners of cell `c`, in the order in which they were left.
    pub open spec fn listeners(self, c: usize) -> Seq<ListenerView> {
        if c < self.cells.len() {
            self.cells[c as int].listeners
        } else {
            Seq::empty()
        }
    }

    /// The value that cell `c` held before its last change.
    pub open spec fn previous(self, c: usize) -> Option<ValueView> {
        if c < self.cells.len() {
            self.cells[c as int].previous
        } else {
            None
        }
    }
}

impl HeapView {
    /// Whether every arena is short enough for machine indices.
    pub open spec fn indexable(self) -> bool {
        &&& self.values.len() <= usize::MAX
        &&& self.cells.len() <= usize::MAX
        &&& self.const_slots.len() <= usize::MAX
        &&& self.var_slots.len() <= usize::MAX
    }
}

/// Re-boxing a pointer as a binding of any kind keeps the value it points
/// to.
pub proof fn lemma_convert_keeps_value(h: HeapView, p: Pointer, vt: VarType)
    requires
        h.indexable(),
    ensures
        h.convert(p, vt).0.value_of(h.convert(p, vt).1) == h.value_of(p),
        h.convert(p, vt).1.var_type() == vt,
{
    let (h2, r) = h.convert(p, vt);
    match vt {
        VarType::ConstConst | VarType::VarConst => {
            let (h1, i) = h.as_const(p);
            assert(h1.value_at(i) == h.value_of(p));
            assert(h2.values == h1.values);
        },
        VarType::ConstVar | VarType::VarVar => {
            let (h1, c) = h.as_var(p);
            assert(c < h1.cells.len());
            assert(h1.cells[c as int].value == h.value_of(p));
            assert(h2.cells == h1.cells);
        },
    }
}

/// Whether no two entries of an object have one key.
pub open spec fn distinct_keys(members: Seq<MemberView>) -> bool {
    forall|i: int, j: int|
        0 <= i < j < members.len() ==> (#[trigger] members[i]).key != (
        #[trigger] members[j]).key
}

/// Whether a value, where it is an object, has no key twice.
pub open spec fn well_keyed(v: ValueView) -> bool {
    v matches ValueView::Object(members) ==> distinct_keys(members)
}

impl HeapView {
    /// No object that the heap holds, as an unchanging value, in a cell, or
    /// as what a cell remembers, has a key twice.
    pub open spec fn well_keyed(self) -> bool {
        &&& forall|i: int| 0 <= i < self.values.len() ==> well_keyed(#[trigger] self.values[i])
        &&& forall|c: int|
            0 <= c < self.cells.len() ==> well_keyed((#[trigger] self.cells[c]).value) && (
            self.cells[c].previous matches Some(v) ==> well_keyed(v))
    }
}

/// Nothing is found in an object where no entry has the key.
pub proof fn lemma_find_member(members: Seq<MemberView>, key: ValueView)
    ensures
        find_member(members, key) is None ==> forall|j: int|
            0 <= j < members.len() ==> (#[trigger] members[j]).key != key,
    decreases members.len(),
{
    if members.len() > 0 && find_member(members, key) is None {
        let rest = members.drop_first();
        lemma_find_member(rest, key);
        assert forall|j: int| 0 <= j < members.len() implies (#[trigger] members[j]).key
            != key by {
            if j > 0 {
                assert(members[j] == rest[j - 1]);
            }
        }
    }
}

/// The value behind a pointer into a heap without a key twice has no key
/// twice.
pub proof fn lemma_value_well_keyed(h: HeapView, p: Pointer)
    requires
        h.well_keyed(),
    ensures
        well_keyed(h.value_of(p)),
{
    assert(distinct_keys(Seq::empty()));
    match h.const_id(p) {
        Some(i) => {
            if i < h.values.len() {
                assert(well_keyed(h.values[i as int]));
            }
        },
        None => {},
    }
    match h.cell_id(p) {
        Some(c) => {
            assert(well_keyed(h.cells[c as int].value));
        },
        None => {},
    }
}

/// The operations of the heap keep it without a key twice, where the values
/// put into it have none twice, and where an entry is added only under a key
/// that the object does not have.
pub proof fn lemma_heap_keeps_keys(
    h: HeapView,
    v: ValueView,
    vt: VarType,
    p: Pointer,
    rhs: Pointer,
    c: usize,
    key: ValueView,
    listener: ListenerView,
)
    requires
        h.well_keyed(),
    ensures
        HeapView::empty().well_keyed(),
        well_keyed(v) ==> h.alloc_value(v).well_keyed(),
        well_keyed(v) ==> h.alloc_cell(v).well_keyed(),
        well_keyed(v) ==> h.fresh(v, vt).0.well_keyed(),
        well_keyed(v) ==> h.write_cell(c, v).well_keyed(),
        well_keyed(v) ==> h.update_in_place(p, v).well_keyed(),
        h.as_const(p).0.well_keyed(),
        h.as_var(p).0.well_keyed(),
        h.convert(p, vt).0.well_keyed(),
        h.assign(p, rhs) matches Ok(after) ==> after.well_keyed(),
        (c < h.cells.len() && h.cells[c as int].value is Object && find_member(
            h.cells[c as int].value->Object_0,
            key,
        ) is None) ==> h.insert_member(c, key, p).well_keyed(),
        h.dot(p, key).0.well_keyed(),
        h.add_next_handle(c, c).well_keyed(),
        h.clear_next_handles(c).well_keyed(),
        h.add_listener(c, listener).well_keyed(),
{
    assert(distinct_keys(Seq::empty()));
    lemma_value_well_keyed(h, p);
    lemma_value_well_keyed(h, rhs);
    if well_keyed(v) {
        lemma_keeps_keys_alloc(h, v);
        lemma_keeps_keys_write(h, c, v);
        match h.cell_id(p) {
            Some(d) => lemma_keeps_keys_write(h, d, v),
            None => {},
        }
    }
    lemma_keeps_keys_alloc(h, h.value_of(p));
    lemma_keeps_keys_alloc(h, h.value_of(rhs));
    match h.cell_id(p) {
        Some(d) => lemma_keeps_keys_write(h, d, h.value_of(rhs)),
        None => {},
    }
    lemma_keeps_keys_insert(h, c, key, p);
    lemma_keeps_keys_dot(h, p, key);
}

/// Putting a value without a key twice into a heap without one keeps it so.
proof fn lemma_keeps_keys_alloc(h: HeapView, v: ValueView)
    requires
        h.well_keyed(),
        well_keyed(v),
    ensures
        h.alloc_value(v).well_keyed(),
        h.alloc_cell(v).well_keyed(),
{
    let a = h.alloc_value(v);
    assert forall|i: int| 0 <= i < a.values.len() implies well_keyed(#[trigger] a.values[i]) by {
        if i < h.values.len() {
            assert(a.values[i] == h.values[i]);
        }
    }
    let b = h.alloc_cell(v);
    assert forall|c: int| 0 <= c < b.cells.len() implies well_keyed(
        (#[trigger] b.cells[c]).value,
    ) && (b.cells[c].previous matches Some(w) ==> well_keyed(w)) by {
        if c < h.cells.len() {
            assert(b.cells[c] == h.cells[c]);
        }
    }
}

/// Writing a value without a key twice into a cell keeps the heap so.
proof fn lemma_keeps_keys_write(h: HeapView, c: usize, v: ValueView)
    requires
        h.well_keyed(),
        well_keyed(v),
    ensures
        h.write_cell(c, v).well_keyed(),
{
    let a = h.write_cell(c, v);
    if c < h.cells.len() {
        assert(well_keyed(h.cells[c as int].value));
        assert forall|d: int| 0 <= d < a.cells.len() implies well_keyed(
            (#[trigger] a.cells[d]).value,
        ) && (a.cells[d].previous matches Some(w) ==> well_keyed(w)) by {
            if d != c {
                assert(a.cells[d] == h.cells[d]);
            }
        }
    }
}

/// Adding an entry under a key that an object does not have keeps the heap
/// without a key twice.
proof fn lemma_keeps_keys_insert(h: HeapView, c: usize, key: ValueView, p: Pointer)
    requires
        h.well_keyed(),
    ensures
        (c < h.cells.len() && h.cells[c as int].value is Object && find_member(
            h.cells[c as int].value->Object_0,
            key,
        ) is None) ==> h.insert_member(c, key, p).well_keyed(),
{
    if c < h.cells.len() {
        if let ValueView::Object(members) = h.cells[c as int].value {
            if find_member(members, key) is None {
                lemma_find_member(members, key);
                assert(well_keyed(h.cells[c as int].value));
                let a = h.insert_member(c, key, p);
                let longer = members.push(MemberView { key, pointer: p });
                assert forall|i: int, j: int| 0 <= i < j < longer.len() implies (
                #[trigger] longer[i]).key != (#[trigger] longer[j]).key by {
                    assert(longer[i] == members[i]);
                    if j < members.len() {
                        assert(longer[j] == members[j]);
                    }
                }
                assert forall|d: int| 0 <= d < a.cells.len() implies well_keyed(
                    (#[trigger] a.cells[d]).value,
                ) && (a.cells[d].previous matches Some(w) ==> well_keyed(w)) by {
                    if d != c {
                        assert(a.cells[d] == h.cells[d]);
                    } else {
                        assert(a.cells[d].previous == h.cells[d].previous);
                    }
                }
            }
        }
    }
}

/// The dot keeps the heap without a key twice.
proof fn lemma_keeps_keys_dot(h: HeapView, p: Pointer, key: ValueView)
    requires
        h.well_keyed(),
    ensures
        h.dot(p, key).0.well_keyed(),
{
    assert(distinct_keys(Seq::empty()));
    assert(well_keyed(undefined()));
    match (h.value_of(p), key) {
        (ValueView::Number(x), ValueView::Number(y)) => {
            match Number::parse_spec(x.text_spec() + seq!['.'] + y.text_spec()) {
                Some(n) => lemma_keeps_keys_alloc(h, ValueView::Number(n)),
                None => {},
            }
        },
        (ValueView::Object(members), _) => {
            match find_member(members, key) {
                Some(found) => {},
                None => {
                    lemma_keeps_keys_alloc(h, undefined());
                    match h.cell_id(p) {
                        Some(c) => {
                            let (h1, r) = h.fresh(undefined(), VarType::VarVar);
                            assert(h1.cells == h.alloc_cell(undefined()).cells);
                            assert(h1.values == h.values);
                            assert(h1.well_keyed());
                            assert(h1.cells[c as int] == h.cells[c as int]);
                            lemma_keeps_keys_insert(h1, c, key, r);
                        },
                        None => {},
                    }
                },
            }
        },
        _ => {
            lemma_keeps_keys_alloc(h, undefined());
        },
    }
}

/// Assignment through a binding that cannot be bound anew always fails.
/// Through a binding that can, and that points to something, it always
/// succeeds, and the binding then points to a value that equals the value of
/// the right side at precision 3.
pub proof fn lemma_assign(h: HeapView, p: Pointer, rhs: Pointer)
    requires
        h.indexable(),
    ensures
        !p.binding_var() ==> h.assign(p, rhs) == Err::<HeapView, EvalError>(
            EvalError::AssignToConst,
        ),
        p.binding_var() && h.valid(p) ==> h.assign(p, rhs) is Ok && eq_spec(
            h.assign(p, rhs)->Ok_0.value_of(p),
            h.value_of(rhs),
            3,
        ),
{
    if p.binding_var() && h.valid(p) {
        let after = h.assign(p, rhs)->Ok_0;
        match p {
            Pointer::VarConst(s) => {
                let (h1, i) = h.as_const(rhs);
                assert(h1.value_at(i) == h.value_of(rhs));
                assert(after.values == h1.values);
                assert(after.const_slots[s as int] == i);
            },
            Pointer::VarVar(s) => {
                let c = h.cell_id(p)->Some_0;
                assert(after.cell_id(p) == Some(c));
                assert(after.cells[c as int].value == h.value_of(rhs));
            },
            _ => {},
        }
    }
}

/// After an assignment through a binding that holds a cell, the cell
/// remembers the value that the binding pointed to before.
pub proof fn lemma_assign_remembers(h: HeapView, p: Pointer, rhs: Pointer)
    requires
        p is VarVar,
        h.valid(p),
    ensures
        h.assign(p, rhs) is Ok,
        h.assign(p, rhs)->Ok_0.cell_id(p) == h.cell_id(p),
        h.assign(p, rhs)->Ok_0.previous(h.cell_id(p)->Some_0) == Some(h.value_of(p)),
{
}

/// After a change in place, the cell remembers the value it held before.
pub proof fn lemma_change_remembers(h: HeapView, p: Pointer, v: ValueView)
    requires
        h.cell_id(p) is Some,
    ensures
        h.update_in_place(p, v).value_of(p) == v,
        h.update_in_place(p, v).previous(h.cell_id(p)->Some_0) == Some(h.value_of(p)),
{
}

/// The first entry of an object with the given key.
pub fn lookup_member(members: &Vec<Member>, key: &Value) -> (r: Option<Pointer>)
    ensures
        r == find_member(views(members@), key@),
{
    let mut i: usize = 0;
    assert(views(members@).skip(0) =~= views(members@));
    while i < members.len()
        invariant
            i <= members.len(),
            find_member(views(members@), key@) == find_member(
                views(members@).skip(i as int),
                key@,
            ),
        decreases members.len() - i,
    {
        assert(views(members@).skip(i as int)[0] == members@[i as int]@);
        if members[i].key.same(key) {
            return Some(members[i].pointer);
        }
        assert(views(members@).skip(i as int).drop_first() =~= views(members@).skip(i + 1));
        i += 1;
    }
    None
}

impl Heap {
    /// The arenas of a heap are short enough for machine indices.
    pub proof fn lemma_indexable(self)
        ensures
            self@.indexable(),
    {
        assert(self@.values.len() == self.values.len());
        assert(self@.cells.len() == self.cells.len());
        assert(self@.const_slots.len() == self.const_slots.len());
        assert(self@.var_slots.len() == self.var_slots.len());
    }

    /// A heap that holds nothing.
    pub fn new() -> (r: Heap)
        ensures
            r@ == HeapView::empty(),
            r@.well_keyed(),
    {
        proof {
            lemma_heap_keeps_keys(
                HeapView::empty(),
                undefined(),
                VarType::ConstConst,
                Pointer::ConstConst(0),
                Pointer::ConstConst(0),
                0,
                undefined(),
                ListenerView { fragment: SyntaxView::Block(Seq::empty()), scope: 0 },
            );
            assert(distinct_keys(Seq::empty()));
        }
        let r = Heap {
            values: Vec::new(),
            cells: Vec::new(),
            const_slots: Vec::new(),
            var_slots: Vec::new(),
        };
        assert(r@.values =~= Seq::empty());
        assert(r@.cells =~= Seq::empty());
        r
    }

    /// Puts an unchanging value into the heap and gives its index.
    pub fn alloc_value(&mut self, v: Value) -> (i: usize)
        ensures
            final(self)@ == old(self)@.alloc_value(v@),
            i == old(self)@.values.len(),
            old(self)@.well_keyed() && well_keyed(v@) ==> final(self)@.well_keyed(),
    {
        proof {
            if self@.well_keyed() {
                lemma_heap_keeps_keys(
                    self@,
                    v@,
                    VarType::ConstConst,
                    Pointer::ConstConst(0),
                    Pointer::ConstConst(0),
                    0,
                    undefined(),
                    ListenerView { fragment: SyntaxView::Block(Seq::empty()), scope: 0 },
                );
            }
        }
        let i: usize = self.values.len();
        proof {
            lemma_views_push(self.values@, v);
        }
        self.values.push(v);
        i
    }

    /// Puts a value into a new cell and gives the cell's index.
    pub fn alloc_cell(&mut self, v: Value) -> (c: usize)
        ensures
            final(self)@ == old(self)@.alloc_cell(v@),
            c == old(self)@.cells.len(),
            old(self)@.well_keyed() && well_keyed(v@) ==> final(self)@.well_keyed(),
    {
        proof {
            if self@.well_keyed() {
                lemma_heap_keeps_keys(
                    self@,
                    v@,
                    VarType::ConstConst,
                    Pointer::ConstConst(0),
                    Pointer::ConstConst(0),
                    0,
                    undefined(),
                    ListenerView { fragment: SyntaxView::Block(Seq::empty()), scope: 0 },
                );
            }
        }
        let c: usize = self.cells.len();
        let cell = MutValue {
            value: v,
            previous: None,
            next_handles: Vec::new(),
            event_listeners: Vec::new(),
        };
        proof {
            assert(cell@.listeners =~= Seq::empty());
            assert(cell@.next_handles =~= Seq::empty());
            lemma_views_push(self.cells@, cell);
        }
        self.cells.push(cell);
        c
    }

    /// A new binding of the given kind to a new place that holds `v`.
    pub fn fresh(&mut self, v: Value, vt: VarType) -> (r: Pointer)
        ensures
            (final(self)@, r) == old(self)@.fresh(v@, vt),
            old(self)@.well_keyed() && well_keyed(v@) ==> final(self)@.well_keyed(),
    {
        proof {
            if self@.well_keyed() {
                lemma_heap_keeps_keys(
                    self@,
                    v@,
                    vt,
                    Pointer::ConstConst(0),
                    Pointer::ConstConst(0),
                    0,
                    undefined(),
                    ListenerView { fragment: SyntaxView::Block(Seq::empty()), scope: 0 },
                );
            }
        }
        match vt {
            VarType::ConstConst => Pointer::ConstConst(self.alloc_value(v)),
            VarType::ConstVar => Pointer::ConstVar(self.alloc_cell(v)),
            VarType::VarConst => {
                let i: usize = self.alloc_value(v);
                let s: usize = self.const_slots.len();
                self.const_slots.push(i);
                Pointer::VarConst(s)
            },
            VarType::VarVar => {
                let c: usize = self.alloc_cell(v);
                let s: usize = self.var_slots.len();
                self.var_slots.push(c);
                Pointer::VarVar(s)
            },
        }
    }

    /// The index of the unchanging value that a pointer shares, if it shares
    /// one.
    pub fn const_id(&self, p: Pointer) -> (r: Option<usize>)
        ensures
            r == self@.const_id(p),
    {
        match p {
            Pointer::ConstConst(i) => Some(i),
            Pointer::VarConst(s) => {
                if s < self.const_slots.len() {
                    Some(self.const_slots[s])
                } else {
                    None
                }
            },
            _ => None,
        }
    }

    /// The index of the cell that a pointer shares, if it shares one.
    pub fn cell_id(&self, p: Pointer) -> (r: Option<usize>)
        ensures
            r == self@.cell_id(p),
    {
        match p {
            Pointer::ConstVar(c) => {
                if c < self.cells.len() {
                    Some(c)
                } else {
                    None
                }
            },
            Pointer::VarVar(s) => {
                if s < self.var_slots.len() && self.var_slots[s] < self.cells.len() {
                    Some(self.var_slots[s])
                } else {
                    None
                }
            },
            _ => None,
        }
    }

    /// The value that a pointer points to, where it points to something.
    pub fn value_ref(&self, p: Pointer) -> (r: Option<&Value>)
        ensures
            match r {
                Some(v) => v@ == self@.value_of(p),
                None => self@.value_of(p) == undefined(),
            },
    {
        match p {
            Pointer::ConstConst(_) | Pointer::VarConst(_) => match self.const_id(p) {
                Some(i) => {
                    if i < self.values.len() {
                        Some(&self.values[i])
                    } else {
                        None
                    }
                },
                None => None,
            },
            Pointer::ConstVar(_) | Pointer::VarVar(_) => match self.cell_id(p) {
                Some(c) => Some(&self.cells[c].value),
                None => None,
            },
        }
    }

    /// Cell `c` takes the value `v` and remembers the value it held before.
    pub fn write_cell(&mut self, c: usize, v: Value)
        ensures
            final(self)@ == old(self)@.write_cell(c, v@),
            old(self)@.well_keyed() && well_keyed(v@) ==> final(self)@.well_keyed(),
    {
        proof {
            if self@.well_keyed() {
                lemma_heap_keeps_keys(
                    self@,
                    v@,
                    VarType::ConstConst,
                    Pointer::ConstConst(0),
                    Pointer::ConstConst(0),
                    c,
                    undefined(),
                    ListenerView { fragment: SyntaxView::Block(Seq::empty()), scope: 0 },
                );
            }
        }
        if c < self.cells.len() {
            let cell = &mut self.cells[c];
            let mut held = v;
            core::mem::swap(&mut cell.value, &mut held);
            cell.previous = Some(held);
            assert(self@.cells =~= old(self)@.write_cell(c, v@).cells);
        }
    }

    /// Adds an entry to the object in cell `c`.
    pub fn insert_member(&mut self, c: usize, key: Value, pointer: Pointer)
        ensures
            final(self)@ == old(self)@.insert_member(c, key@, pointer),
            old(self)@.well_keyed() && find_member(
                old(self)@.value_of(Pointer::ConstVar(c))->Object_0,
                key@,
            ) is None ==> final(self)@.well_keyed(),
    {
        proof {
            if self@.well_keyed() {
                lemma_heap_keeps_keys(
                    self@,
                    undefined(),
                    VarType::ConstConst,
                    pointer,
                    Pointer::ConstConst(0),
                    c,
                    key@,
                    ListenerView { fragment: SyntaxView::Block(Seq::empty()), scope: 0 },
                );
            }
        }
        if c < self.cells.len() {
            let cell = &mut self.cells[c];
            if let Value::Object(members) = &mut cell.value {
                let ghost before = *members;
                proof {
                    lemma_member_models(before);
                    lemma_views_push(members@, Member { key, pointer });
                }
                members.push(Member { key, pointer });
                proof {
                    lemma_member_models(*members);
                }
            }
            assert(self@.cells =~= old(self)@.insert_member(c, key@, pointer).cells);
        }
    }

    /// Cell `handle` is to take the value of cell `c` at the next change of
    /// `c`.
    pub fn add_next_handle(&mut self, c: usize, handle: usize)
        ensures
            final(self)@ == old(self)@.add_next_handle(c, handle),
            old(self)@.well_keyed() ==> final(self)@.well_keyed(),
    {
        proof {
            if self@.well_keyed() {
                let after = self@.add_next_handle(c, handle);
                assert forall|d: int| 0 <= d < after.cells.len() implies well_keyed(
                    (#[trigger] after.cells[d]).value,
                ) && (after.cells[d].previous matches Some(w) ==> well_keyed(w)) by {
                    assert(after.cells[d].value == self@.cells[d].value);
                    assert(after.cells[d].previous == self@.cells[d].previous);
                }
            }
        }
        if c < self.cells.len() {
            let cell = &mut self.cells[c];
            cell.next_handles.push(handle);
            assert(self@.cells =~= old(self)@.add_next_handle(c, handle).cells);
        }
    }

    /// Takes the cells that wait for the next change of cell `c`.
    pub fn flush_next_handles(&mut self, c: usize) -> (r: Vec<usize>)
        ensures
            final(self)@ == old(self)@.clear_next_handles(c),
            r@ == old(self)@.next_handles(c),
            old(self)@.well_keyed() ==> final(self)@.well_keyed(),
    {
        proof {
            if self@.well_keyed() {
                lemma_heap_keeps_keys(
                    self@,
                    undefined(),
                    VarType::ConstConst,
                    Pointer::ConstConst(0),
                    Pointer::ConstConst(0),
                    c,
                    undefined(),
                    ListenerView { fragment: SyntaxView::Block(Seq::empty()), scope: 0 },
                );
            }
        }
        let mut handles: Vec<usize> = Vec::new();
        if c < self.cells.len() {
            let cell = &mut self.cells[c];
            core::mem::swap(&mut cell.next_handles, &mut handles);
            assert(self@.cells =~= old(self)@.clear_next_handles(c).cells);
        }
        handles
    }

    /// Cell `c` gets a listener.
    pub fn add_event_listener(&mut self, c: usize, fragment: Syntax, scope: usize)
        ensures
            final(self)@ == old(self)@.add_listener(
                c,
                ListenerView { fragment: fragment@, scope },
            ),
            old(self)@.well_keyed() ==> final(self)@.well_keyed(),
    {
        proof {
            if self@.well_keyed() {
                lemma_heap_keeps_keys(
                    self@,
                    undefined(),
                    VarType::ConstConst,
                    Pointer::ConstConst(0),
                    Pointer::ConstConst(0),
                    c,
                    undefined(),
                    ListenerView { fragment: fragment@, scope },
                );
            }
        }
        if c < self.cells.len() {
            let cell = &mut self.cells[c];
            let listener = Listener { fragment, scope };
            proof {
                lemma_views_push(cell.event_listeners@, listener);
            }
            cell.event_listeners.push(listener);
            assert(self@.cells =~= old(self)@.add_listener(
                c,
                ListenerView { fragment: fragment@, scope },
            ).cells);
        }
    }

    /// The listeners of cell `c`.
    pub fn listeners(&self, c: usize) -> (r: Vec<Listener>)
        ensures
            views(r@) == self@.listeners(c),
    {
        if c < self.cells.len() {
            copy_listeners(&self.cells[c].event_listeners)
        } else {
            let r: Vec<Listener> = Vec::new();
            assert(views(r@) =~= Seq::empty());
            r
        }
    }

    /// The value that cell `c` held before its last change.
    pub fn previous(&self, c: usize) -> (r: Option<Value>)
        ensures
            option_view(r) == self@.previous(c),
    {
        if c < self.cells.len() {
            copy_option(&self.cells[c].previous)
        } else {
            None
        }
    }
}

/// A fresh copy of a list of listeners.
fn copy_listeners(a: &Vec<Listener>) -> (r: Vec<Listener>)
    ensures
        views(r@) == views(a@),
{
    let mut r: Vec<Listener> = Vec::new();
    let mut i: usize = 0;
    while i < a.len()
        invariant
            i <= a.len(),
            r@.len() == i,
            forall|j: int| 0 <= j < i ==> r@[j]@ == a@[j]@,
        decreases a.len() - i,
    {
        r.push(Listener { fragment: a[i].fragment.copy(), scope: a[i].scope });
        i += 1;
    }
    assert(views(r@) =~= views(a@));
    r
}

/// A fresh copy of a value that may be missing.
fn copy_option(a: &Option<Value>) -> (r: Option<Value>)
    ensures
        option_view(r) == option_view(*a),
{
    match a {
        Some(v) => Some(v.copy()),
        None => None,
    }
}

/// Puts a value into a new cell of the heap and gives the cell's index.
pub fn rc_mut_new(heap: &mut Heap, content: Value) -> (c: usize)
    ensures
        final(heap)@ == old(heap)@.alloc_cell(content@),
        c == old(heap)@.cells.len(),
        old(heap)@.well_keyed() && well_keyed(content@) ==> final(heap)@.well_keyed(),
{
    heap.alloc_cell(content)
}

impl Pointer {
    /// A new binding, fixed on both axes, to the given value.
    pub fn from(heap: &mut Heap, value: Value) -> (r: Pointer)
        ensures
            (final(heap)@, r) == old(heap)@.fresh(value@, VarType::ConstConst),
            old(heap)@.well_keyed() && well_keyed(value@) ==> final(heap)@.well_keyed(),
    {

        heap.fresh(value, VarType::ConstConst)
    }

    /// A copy of the value that the pointer points to.
    pub fn clone_inner(&self, heap: &Heap) -> (r: Value)
        ensures
            r@ == heap@.value_of(*self),
    {
        match heap.value_ref(*self) {
            Some(v) => v.copy(),
            None => Value::empty_object(),
        }
    }

    /// The unchanging value that stands for the pointer: the one it shares,
    /// or a new snapshot.
    pub fn as_const(&self, heap: &mut Heap) -> (r: usize)
        ensures
            (final(heap)@, r) == old(heap)@.as_const(*self),
            old(heap)@.well_keyed() ==> final(heap)@.well_keyed(),
    {
        proof {
            if heap@.well_keyed() {
                lemma_heap_keeps_keys(
                    heap@,
                    undefined(),
                    VarType::ConstConst,
                    *self,
                    *self,
                    0,
                    undefined(),
                    ListenerView { fragment: SyntaxView::Block(Seq::empty()), scope: 0 },
                );
            }
        }
        match heap.const_id(*self) {
            Some(i) => i,
            None => {
                let v = self.clone_inner(heap);
                heap.alloc_value(v)
            },
        }
    }

    /// The cell that stands for the pointer: the one it shares, or a new one.
    pub fn as_var(&self, heap: &mut Heap) -> (r: usize)
        ensures
            (final(heap)@, r) == old(heap)@.as_var(*self),
            old(heap)@.well_keyed() ==> final(heap)@.well_keyed(),
    {
        proof {
            if heap@.well_keyed() {
                lemma_heap_keeps_keys(
                    heap@,
                    undefined(),
                    VarType::ConstConst,
                    *self,
                    *self,
                    0,
                    undefined(),
                    ListenerView { fragment: SyntaxView::Block(Seq::empty()), scope: 0 },
                );
            }
        }
        match heap.cell_id(*self) {
            Some(c) => c,
            None => {
                let v = self.clone_inner(heap);
                heap.alloc_cell(v)
            },
        }
    }

    /// Re-boxes the pointer as a binding of another kind. The value it
    /// points to stays what it was.
    pub fn convert(&self, heap: &mut Heap, vt: VarType) -> (r: Pointer)
        ensures
            (final(heap)@, r) == old(heap)@.convert(*self, vt),
            final(heap)@.value_of(r) == old(heap)@.value_of(*self),
            r.var_type() == vt,
            old(heap)@.well_keyed() ==> final(heap)@.well_keyed(),
    {
        proof {
            if heap@.well_keyed() {
                lemma_heap_keeps_keys(
                    heap@,
                    undefined(),
                    vt,
                    *self,
                    *self,
                    0,
                    undefined(),
                    ListenerView { fragment: SyntaxView::Block(Seq::empty()), scope: 0 },
                );
            }
        }
        proof {
            heap.lemma_indexable();
            lemma_convert_keeps_value(heap@, *self, vt);
        }
        match vt {
            VarType::ConstConst => Pointer::ConstConst(self.as_const(heap)),
            VarType::ConstVar => Pointer::ConstVar(self.as_var(heap)),
            VarType::VarConst => {
                let i: usize = self.as_const(heap);
                let s: usize = heap.const_slots.len();
                heap.const_slots.push(i);
                Pointer::VarConst(s)
            },
            VarType::VarVar => {
                let c: usize = self.as_var(heap);
                let s: usize = heap.var_slots.len();
                heap.var_slots.push(c);
                Pointer::VarVar(s)
            },
        }
    }

    /// Assigns through the pointer. Refused where the binding cannot be
    /// bound anew; the heap is then unchanged.
    pub fn assign(&self, heap: &mut Heap, rhs: &Pointer) -> (r: Result<(), EvalError>)
        ensures
            match old(heap)@.assign(*self, *rhs) {
                Ok(h) => r is Ok && final(heap)@ == h,
                Err(e) => r == Err::<(), EvalError>(e) && final(heap)@ == old(heap)@,
            },
            old(heap)@.well_keyed() ==> final(heap)@.well_keyed(),
    {
        proof {
            if heap@.well_keyed() {
                lemma_heap_keeps_keys(
                    heap@,
                    undefined(),
                    VarType::ConstConst,
                    *self,
                    *rhs,
                    0,
                    undefined(),
                    ListenerView { fragment: SyntaxView::Block(Seq::empty()), scope: 0 },
                );
            }
        }
        match *self {
            Pointer::ConstConst(_) | Pointer::ConstVar(_) => Err(EvalError::AssignToConst),
            Pointer::VarConst(s) => {
                if s < heap.const_slots.len() {
                    let i: usize = rhs.as_const(heap);
                    heap.const_slots.set(s, i);
                    Ok(())
                } else {
                    Err(EvalError::Dangling)
                }
            },
            Pointer::VarVar(_) => match heap.cell_id(*self) {
                Some(c) => {
                    let v = rhs.clone_inner(heap);
                    heap.write_cell(c, v);
                    Ok(())
                },
                None => Err(EvalError::Dangling),
            },
        }
    }

    /// Changes the value behind the pointer in place, where it has a cell.
    pub fn update_in_place(&self, heap: &mut Heap, v: Value)
        ensures
            final(heap)@ == old(heap)@.update_in_place(*self, v@),
            old(heap)@.well_keyed() && well_keyed(v@) ==> final(heap)@.well_keyed(),
    {
        proof {
            if heap@.well_keyed() {
                lemma_heap_keeps_keys(
                    heap@,
                    v@,
                    VarType::ConstConst,
                    *self,
                    *self,
                    0,
                    undefined(),
                    ListenerView { fragment: SyntaxView::Block(Seq::empty()), scope: 0 },
                );
            }
        }
        if let Some(c) = heap.cell_id(*self) {
            heap.write_cell(c, v);
        }
    }

    /// Whether two pointers are equal at the given precision.
    pub fn equals(&self, heap: &Heap, rhs: &Pointer, precision: u8) -> (r: bool)
        ensures
            r == heap@.equal(*self, *rhs, precision),
    {
        if precision >= 4 {
            match (heap.const_id(*self), heap.const_id(*rhs)) {
                (Some(i), Some(j)) => i == j,
                _ => match (heap.cell_id(*self), heap.cell_id(*rhs)) {
                    (Some(c), Some(d)) => c == d,
                    _ => false,
                },
            }
        } else {
            let a = self.clone_inner(heap);
            let b = rhs.clone_inner(heap);
            a.equals(&b, precision)
        }
    }

    /// Equality at the given precision, as a new binding to a truth value.
    pub fn eq(&self, heap: &mut Heap, rhs: &Pointer, precision: u8) -> (r: Pointer)
        ensures
            (final(heap)@, r) == old(heap)@.fresh(
                ValueView::Boolean(Boolean::of(old(heap)@.equal(*self, *rhs, precision))),
                VarType::ConstConst,
            ),
            old(heap)@.well_keyed() ==> final(heap)@.well_keyed(),
    {

        let b: bool = self.equals(heap, rhs, precision);
        Pointer::from(heap, Value::Boolean(Boolean::from(b)))
    }

    /// The dot operator.
    pub fn dot(&self, heap: &mut Heap, rhs: &Value) -> (r: Result<Pointer, EvalError>)
        ensures
            (final(heap)@, r) == old(heap)@.dot(*self, rhs@),
            old(heap)@.well_keyed() ==> final(heap)@.well_keyed(),
    {
        proof {
            if heap@.well_keyed() {
                lemma_heap_keeps_keys(
                    heap@,
                    undefined(),
                    VarType::ConstConst,
                    *self,
                    *self,
                    0,
                    rhs@,
                    ListenerView { fragment: SyntaxView::Block(Seq::empty()), scope: 0 },
                );
            }
        }
        let lhs = self.clone_inner(heap);
        match (&lhs, rhs) {
            (Value::Number(x), Value::Number(y)) => {
                let mut text = x.to_text();
                text.push('.');
                let decimals = y.to_text();
                append(&mut text, &decimals);
                assert(text@ =~= x.text_spec() + seq!['.'] + y.text_spec());
                match Number::parse(&text) {
                    Some(n) => Ok(Pointer::from(heap, Value::Number(n))),
                    None => Err(EvalError::BadDecimal),
                }
            },
            (Value::Object(members), _) => {
                proof {
                    lemma_member_models(*members);
                }
                match lookup_member(members, rhs) {
                    Some(found) => Ok(found),
                    None => match heap.cell_id(*self) {
                        Some(c) => {
                            let r = heap.fresh(Value::empty_object(), VarType::VarVar);
                            heap.insert_member(c, rhs.copy(), r);
                            Ok(r)
                        },
                        None => Ok(Pointer::from(heap, Value::empty_object())),
                    },
                }
            },
            _ => Ok(Pointer::from(heap, Value::empty_object())),
        }
    }

    /// Runs a function on the value that the pointer points to.
    pub fn with_ref<T, F: FnOnce(&Value) -> T>(&self, heap: &Heap, func: F) -> (r: T)
        requires
            forall|v: &Value| v@ == heap@.value_of(*self) ==> #[trigger] func.requires((v,)),
        ensures
            exists|v: &Value| v@ == heap@.value_of(*self) && #[trigger] func.ensures((v,), r),
    {
        match heap.value_ref(*self) {
            Some(v) => func(v),
            None => {
                let u = Value::empty_object();
                func(&u)
            },
        }
    }

    /// Runs a function on the values that two pointers point to.
    pub fn with_refs<T, F: FnOnce(&Value, &Value) -> T>(
        &self,
        heap: &Heap,
        other: &Pointer,
        func: F,
    ) -> (r: T)
        requires
            forall|v: &Value, w: &Value|
                v@ == heap@.value_of(*self) && w@ == heap@.value_of(*other)
                    ==> #[trigger] func.requires((v, w)),
        ensures
            exists|v: &Value, w: &Value|
                v@ == heap@.value_of(*self) && w@ == heap@.value_of(*other)
                    && #[trigger] func.ensures((v, w), r),
    {
        let a = self.clone_inner(heap);
        let b = other.clone_inner(heap);
        func(&a, &b)
    }
}

} // verus!
