//! The environment: scopes of named bindings, each with at most one parent.

use vstd::prelude::*;
use crate::number::{spells_nan, Number};
use crate::pointer::{distinct_keys, well_keyed, Heap, HeapView, Pointer};
use crate::syntax::VarType;
use crate::text::{chars_of, copy_text, lemma_views_push, lemma_views_update, text_eq, views};
use crate::value::{undefined, Boolean, Keyword, Member, MemberView, Value, ValueView};

verus! {

/// How long a binding lasts: for good, or for a number of ticks.
#[derive(Debug, Clone, Copy, PartialEq, Eq, Structural)]
pub enum Lifetime {
    Default,
    Ticks(i64),
}

/// A name, the binding it stands for, and how long it lasts.
#[derive(Debug, PartialEq, Eq)]
pub struct Binding {
    pub name: Vec<char>,
    pub pointer: Pointer,
    pub lifetime: Lifetime,
}

/// The view of a binding: the name by its characters.
pub ghost struct BindingView {
    pub name: Seq<char>,
    pub pointer: Pointer,
    pub lifetime: Lifetime,
}

impl View for Binding {
    type V = BindingView;

    open spec fn view(&self) -> BindingView {
        BindingView { name: self.name@, pointer: self.pointer, lifetime: self.lifetime }
    }
}

/// One layer of the environment: its bindings in the order in which their
/// names were first bound, and the layer around it.
#[derive(Debug, PartialEq, Eq)]
pub struct Scope {
    pub parent: Option<usize>,
    pub bindings: Vec<Binding>,
}

/// The view of a layer: its bindings by their views.
pub ghost struct ScopeView {
    pub parent: Option<usize>,
    pub bindings: Seq<BindingView>,
}

impl View for Scope {
    type V = ScopeView;

    open spec fn view(&self) -> ScopeView {
        ScopeView { parent: self.parent, bindings: views(self.bindings@) }
    }
}

/// All layers of the environment. A layer is named by its index; the layer
/// around it has a smaller index.
#[derive(Debug, PartialEq, Eq)]
pub struct State {
    pub scopes: Vec<Scope>,
    pub undefined: Pointer,
}

/// The view of an environment: its layers by their views.
pub ghost struct StateView {
    pub scopes: Seq<ScopeView>,
    pub undefined: Pointer,
}

impl View for State {
    type V = StateView;

    open spec fn view(&self) -> StateView {
        StateView { scopes: views(self.scopes@), undefined: self.undefined }
    }
}

/// The index of the first binding with the given name.
pub open spec fn find_binding(bindings: Seq<BindingView>, name: Seq<char>) -> Option<int>
    decreases bindings.len(),
{
    if bindings.len() == 0 {
        None
    } else {
        match find_binding(bindings.drop_last(), name) {
            Some(i) => Some(i),
            None => if bindings.last().name == name {
                Some(bindings.len() - 1)
            } else {
                None
            },
        }
    }
}

/// The bindings with `name` bound to the given binding: in place of the first
/// binding of that name, or at the end.
pub open spec fn bind(bindings: Seq<BindingView>, binding: BindingView) -> Seq<BindingView> {
    match find_binding(bindings, binding.name) {
        Some(i) => bindings.update(i, binding),
        None => bindings.push(binding),
    }
}

/// One tick of a binding: a count moves one towards zero, and a binding
/// whose count thereby reaches zero, or is zero, becomes a lasting binding to
/// undefined.
pub open spec fn ticked(b: BindingView, undefined: Pointer) -> BindingView {
    match b.lifetime {
        Lifetime::Default => b,
        Lifetime::Ticks(t) => if t < -1 {
            BindingView { lifetime: Lifetime::Ticks((t + 1) as i64), ..b }
        } else if t > 1 {
            BindingView { lifetime: Lifetime::Ticks((t - 1) as i64), ..b }
        } else {
            BindingView { pointer: undefined, lifetime: Lifetime::Default, ..b }
        },
    }
}

/// Whether no two bindings of a list have one name.
pub open spec fn distinct_names(bindings: Seq<BindingView>) -> bool {
    forall|i: int, j: int|
        0 <= i < j < bindings.len() ==> (#[trigger] bindings[i]).name != (
        #[trigger] bindings[j]).name
}

/// What is found is the first binding of the name; nothing is found where no
/// binding has the name.
pub proof fn lemma_find_binding(bindings: Seq<BindingView>, name: Seq<char>)
    ensures
        match find_binding(bindings, name) {
            Some(i) => 0 <= i < bindings.len() && bindings[i].name == name && forall|j: int|
                0 <= j < i ==> (#[trigger] bindings[j]).name != name,
            None => forall|j: int| 0 <= j < bindings.len() ==> (#[trigger] bindings[j]).name != name,
        },
    decreases bindings.len(),
{
    if bindings.len() > 0 {
        let shorter = bindings.drop_last();
        lemma_find_binding(shorter, name);
        match find_binding(shorter, name) {
            Some(i) => {
                assert(bindings[i] == shorter[i]);
                assert forall|j: int| 0 <= j < i implies (#[trigger] bindings[j]).name
                    != name by {
                    assert(bindings[j] == shorter[j]);
                }
            },
            None => {
                assert forall|j: int| 0 <= j < bindings.len() - 1 implies (
                #[trigger] bindings[j]).name != name by {
                    assert(bindings[j] == shorter[j]);
                }
            },
        }
    }
}

/// Binding a name in a list in which no name occurs twice gives such a list.
pub proof fn lemma_bind_keeps_distinct(bindings: Seq<BindingView>, binding: BindingView)
    requires
        distinct_names(bindings),
    ensures
        distinct_names(bind(bindings, binding)),
{
    lemma_find_binding(bindings, binding.name);
    let after = bind(bindings, binding);
    match find_binding(bindings, binding.name) {
        Some(k) => {
            assert forall|i: int, j: int| 0 <= i < j < after.len() implies (
            #[trigger] after[i]).name != (#[trigger] after[j]).name by {
                assert(after[i].name == bindings[i].name);
                assert(after[j].name == bindings[j].name);
            }
        },
        None => {
            assert forall|i: int, j: int| 0 <= i < j < after.len() implies (
            #[trigger] after[i]).name != (#[trigger] after[j]).name by {
                assert(after[i] == bindings[i]);
                if j < bindings.len() {
                    assert(after[j] == bindings[j]);
                }
            }
        },
    }
}

impl StateView {
    /// No layer binds a name twice.
    pub open spec fn unique(self) -> bool {
        forall|s: int|
            0 <= s < self.scopes.len() ==> distinct_names((#[trigger] self.scopes[s]).bindings)
    }

    /// The parent of a layer, where it has one that is an earlier layer.
    pub open spec fn parent_of(self, scope: usize) -> Option<usize> {
        if scope < self.scopes.len() {
            match self.scopes[scope as int].parent {
                Some(p) => if p < scope {
                    Some(p)
                } else {
                    None
                },
                None => None,
            }
        } else {
            None
        }
    }

    /// The bindings of a layer; none for a layer that does not exist.
    pub open spec fn bindings_of(self, scope: usize) -> Seq<BindingView> {
        if scope < self.scopes.len() {
            self.scopes[scope as int].bindings
        } else {
            Seq::empty()
        }
    }

    /// The nearest layer, from `scope` outwards, that binds `name`.
    pub open spec fn binder(self, scope: usize, name: Seq<char>) -> Option<usize>
        decreases scope,
    {
        if find_binding(self.bindings_of(scope), name) is Some {
            Some(scope)
        } else {
            match self.parent_of(scope) {
                Some(p) => self.binder(p, name),
                None => None,
            }
        }
    }

    /// The outermost layer around `scope`.
    pub open spec fn root_of(self, scope: usize) -> usize
        decreases scope,
    {
        match self.parent_of(scope) {
            Some(p) => self.root_of(p),
            None => scope,
        }
    }

    /// The binding that `name` has in `scope`, looked up from the inside out.
    pub open spec fn resolve(self, scope: usize, name: Seq<char>) -> Option<Pointer> {
        match self.binder(scope, name) {
            Some(s) => Some(
                self.bindings_of(s)[find_binding(self.bindings_of(s), name).unwrap()].pointer,
            ),
            None => None,
        }
    }

    /// The state with `name` bound in `scope`; unchanged where the layer does
    /// not exist.
    pub open spec fn insert(
        self,
        scope: usize,
        name: Seq<char>,
        pointer: Pointer,
        lifetime: Lifetime,
    ) -> StateView {
        if scope < self.scopes.len() {
            StateView {
                scopes: self.scopes.update(
                    scope as int,
                    ScopeView {
                        bindings: bind(
                            self.scopes[scope as int].bindings,
                            BindingView { name, pointer, lifetime },
                        ),
                        ..self.scopes[scope as int]
                    },
                ),
                ..self
            }
        } else {
            self
        }
    }

    /// The state with `name` bound to undefined in the nearest layer that
    /// binds it, or in `scope` where none does.
    pub open spec fn delete(self, scope: usize, name: Seq<char>) -> StateView {
        match self.binder(scope, name) {
            Some(s) => self.insert(s, name, self.undefined, Lifetime::Default),
            None => self.insert(scope, name, self.undefined, Lifetime::Default),
        }
    }

    /// The state with a new, empty layer inside `parent`, and its index.
    pub open spec fn from_parent(self, parent: usize) -> (StateView, usize) {
        (
            StateView {
                scopes: self.scopes.push(
                    ScopeView { parent: Some(parent), bindings: Seq::empty() },
                ),
                ..self
            },
            self.scopes.len() as usize,
        )
    }

    /// The bindings of a layer as the entries of an object, keyed by their
    /// names.
    pub open spec fn locals_to_object(self, scope: usize) -> Seq<MemberView> {
        Seq::new(
            self.bindings_of(scope).len(),
            |i: int|
                MemberView {
                    key: ValueView::String(self.bindings_of(scope)[i].name),
                    pointer: self.bindings_of(scope)[i].pointer,
                },
        )
    }

    /// One tick of a layer and of every layer around it.
    pub open spec fn tick(self, scope: usize) -> StateView
        decreases scope,
    {
        if scope < self.scopes.len() {
            let here = StateView {
                scopes: self.scopes.update(
                    scope as int,
                    ScopeView {
                        bindings: Seq::new(
                            self.scopes[scope as int].bindings.len(),
                            |i: int| ticked(self.scopes[scope as int].bindings[i], self.undefined),
                        ),
                        ..self.scopes[scope as int]
                    },
                ),
                ..self
            };
            match self.parent_of(scope) {
                Some(p) => here.tick(p),
                None => here,
            }
        } else {
            self
        }
    }
}

/// The names that every environment binds from the start, with their values.
pub open spec fn seeds() -> Seq<(Seq<char>, ValueView)> {
    seq![
        ("🥧"@, ValueView::Number(Number::Finite { negative: false, magnitude: 3_141_592_653 })),
        ("class"@, ValueView::Keyword(Keyword::Class)),
        ("className"@, ValueView::Keyword(Keyword::Class)),
        ("const"@, ValueView::Keyword(Keyword::Const)),
        ("current"@, ValueView::Keyword(Keyword::Current)),
        ("delete"@, ValueView::Keyword(Keyword::Delete)),
        ("eval"@, ValueView::Keyword(Keyword::Eval)),
        ("false"@, ValueView::Boolean(Boolean::False)),
        ("forget"@, ValueView::Keyword(Keyword::Forget)),
        ("if"@, ValueView::Keyword(Keyword::If)),
        ("infinity"@, ValueView::Number(Number::Infinite { negative: false })),
        ("maybe"@, ValueView::Boolean(Boolean::Maybe)),
        ("next"@, ValueView::Keyword(Keyword::Next)),
        ("new"@, ValueView::Keyword(Keyword::New)),
        ("previous"@, ValueView::Keyword(Keyword::Previous)),
        ("true"@, ValueView::Boolean(Boolean::True)),
        ("var"@, ValueView::Keyword(Keyword::Var)),
        ("when"@, ValueView::Keyword(Keyword::When)),
        ("∞"@, ValueView::Number(Number::Infinite { negative: false })),
    ]
}

/// The heap and the bindings after each of the first `n` names of `list` was
/// bound, fixed on both axes, to a new place that holds its value.
pub open spec fn seeded(
    h: HeapView,
    bindings: Seq<BindingView>,
    list: Seq<(Seq<char>, ValueView)>,
    n: int,
) -> (HeapView, Seq<BindingView>)
    decreases n,
{
    if n <= 0 || n > list.len() {
        (h, bindings)
    } else {
        let (h1, b1) = seeded(h, bindings, list, n - 1);
        let (h2, p) = h1.fresh(list[n - 1].1, VarType::ConstConst);
        (h2, bind(b1, BindingView { name: list[n - 1].0, pointer: p, lifetime: Lifetime::Default }))
    }
}

impl StateView {
    /// The environment of a new program: one layer that binds the seeds and
    /// `undefined`.
    pub open spec fn initial(h: HeapView) -> (HeapView, StateView) {
        let (h1, bindings) = seeded(h, Seq::empty(), seeds(), seeds().len() as int);
        let (h2, u) = h1.fresh(undefined(), VarType::ConstConst);
        (
            h2,
            StateView {
                scopes: seq![
                    ScopeView {
                        parent: None,
                        bindings: bind(
                            bindings,
                            BindingView {
                                name: "undefined"@,
                                pointer: u,
                                lifetime: Lifetime::Default,
                            },
                        ),
                    },
                ],
                undefined: u,
            },
        )
    }

    /// Looks `name` up from `scope` outwards. A name that nothing binds is
    /// bound in the outermost layer, fixed on both axes, to its default
    /// value.
    pub open spec fn get(self, h: HeapView, scope: usize, name: Seq<char>) -> (
        HeapView,
        StateView,
        Pointer,
    ) {
        match self.resolve(scope, name) {
            Some(p) => (h, self, p),
            None => {
                let (h1, p) = h.fresh(
                    default_value_spec(name, regex_matches(function_pattern(), name)),
                    VarType::ConstConst,
                );
                (h1, self.insert(self.root_of(scope), name, p, Lifetime::Default), p)
            },
        }
    }
}

/// No seed is an object.
pub proof fn lemma_seeds_hold_no_object(i: int)
    requires
        0 <= i < seeds().len(),
    ensures
        !(seeds()[i].1 is Object),
        well_keyed(seeds()[i].1),
{
    assert(seeds().len() == 19);
    assert(!(seeds()[0].1 is Object));
    assert(!(seeds()[1].1 is Object));
    assert(!(seeds()[2].1 is Object));
    assert(!(seeds()[3].1 is Object));
    assert(!(seeds()[4].1 is Object));
    assert(!(seeds()[5].1 is Object));
    assert(!(seeds()[6].1 is Object));
    assert(!(seeds()[7].1 is Object));
    assert(!(seeds()[8].1 is Object));
    assert(!(seeds()[9].1 is Object));
    assert(!(seeds()[10].1 is Object));
    assert(!(seeds()[11].1 is Object));
    assert(!(seeds()[12].1 is Object));
    assert(!(seeds()[13].1 is Object));
    assert(!(seeds()[14].1 is Object));
    assert(!(seeds()[15].1 is Object));
    assert(!(seeds()[16].1 is Object));
    assert(!(seeds()[17].1 is Object));
    assert(!(seeds()[18].1 is Object));
}

/// Seeding keeps the names of a list distinct.
pub proof fn lemma_seeded_distinct(
    h: HeapView,
    bindings: Seq<BindingView>,
    list: Seq<(Seq<char>, ValueView)>,
    n: int,
)
    requires
        distinct_names(bindings),
    ensures
        distinct_names(seeded(h, bindings, list, n).1),
    decreases n,
{
    if 0 < n <= list.len() {
        lemma_seeded_distinct(h, bindings, list, n - 1);
        let (h1, b1) = seeded(h, bindings, list, n - 1);
        let (h2, p) = h1.fresh(list[n - 1].1, VarType::ConstConst);
        lemma_bind_keeps_distinct(
            b1,
            BindingView { name: list[n - 1].0, pointer: p, lifetime: Lifetime::Default },
        );
    }
}

/// No layer of the environment of a new program binds a name twice, and
/// every operation of the environment keeps it so.
pub proof fn lemma_state_keeps_unique(
    s: StateView,
    h: HeapView,
    scope: usize,
    name: Seq<char>,
    pointer: Pointer,
    lifetime: Lifetime,
)
    ensures
        StateView::initial(h).1.unique(),
        s.unique() ==> s.insert(scope, name, pointer, lifetime).unique(),
        s.unique() ==> s.delete(scope, name).unique(),
        s.unique() ==> s.from_parent(scope).0.unique(),
        s.unique() ==> s.get(h, scope, name).1.unique(),
        s.unique() ==> s.tick(scope).unique(),
{
    lemma_seeded_distinct(h, Seq::empty(), seeds(), seeds().len() as int);
    let (h1, seeded_bindings) = seeded(h, Seq::empty(), seeds(), seeds().len() as int);
    let (h2, u) = h1.fresh(undefined(), VarType::ConstConst);
    lemma_bind_keeps_distinct(
        seeded_bindings,
        BindingView { name: "undefined"@, pointer: u, lifetime: Lifetime::Default },
    );
    if s.unique() {
        lemma_insert_keeps_unique(s, scope, name, pointer, lifetime);
        match s.binder(scope, name) {
            Some(b) => lemma_insert_keeps_unique(s, b, name, s.undefined, Lifetime::Default),
            None => lemma_insert_keeps_unique(s, scope, name, s.undefined, Lifetime::Default),
        }
        let entered = s.from_parent(scope).0;
        assert forall|k: int| 0 <= k < entered.scopes.len() implies distinct_names(
            (#[trigger] entered.scopes[k]).bindings,
        ) by {
            if k < s.scopes.len() {
                assert(entered.scopes[k] == s.scopes[k]);
            }
        }
        let found = h.fresh(
            default_value_spec(name, regex_matches(function_pattern(), name)),
            VarType::ConstConst,
        ).1;
        lemma_insert_keeps_unique(s, s.root_of(scope), name, found, Lifetime::Default);
        lemma_tick_keeps_unique(s, scope);
    }
}

/// Binding a name in a layer keeps every layer without a name bound twice.
pub proof fn lemma_insert_keeps_unique(
    s: StateView,
    scope: usize,
    name: Seq<char>,
    pointer: Pointer,
    lifetime: Lifetime,
)
    requires
        s.unique(),
    ensures
        s.insert(scope, name, pointer, lifetime).unique(),
{
    let after = s.insert(scope, name, pointer, lifetime);
    if scope < s.scopes.len() {
        assert(distinct_names(s.scopes[scope as int].bindings));
        lemma_bind_keeps_distinct(
            s.scopes[scope as int].bindings,
            BindingView { name, pointer, lifetime },
        );
        assert forall|k: int| 0 <= k < after.scopes.len() implies distinct_names(
            (#[trigger] after.scopes[k]).bindings,
        ) by {
            if k != scope {
                assert(after.scopes[k] == s.scopes[k]);
            }
        }
    }
}

/// A tick keeps every layer without a name bound twice.
pub proof fn lemma_tick_keeps_unique(s: StateView, scope: usize)
    requires
        s.unique(),
    ensures
        s.tick(scope).unique(),
    decreases scope,
{
    if scope < s.scopes.len() {
        let old_bindings = s.scopes[scope as int].bindings;
        let new_bindings = Seq::new(
            old_bindings.len(),
            |i: int| ticked(old_bindings[i], s.undefined),
        );
        let here = StateView {
            scopes: s.scopes.update(
                scope as int,
                ScopeView { bindings: new_bindings, ..s.scopes[scope as int] },
            ),
            ..s
        };
        assert(distinct_names(old_bindings));
        assert forall|i: int, j: int| 0 <= i < j < new_bindings.len() implies (
        #[trigger] new_bindings[i]).name != (#[trigger] new_bindings[j]).name by {
            assert(new_bindings[i].name == old_bindings[i].name);
            assert(new_bindings[j].name == old_bindings[j].name);
        }
        assert forall|k: int| 0 <= k < here.scopes.len() implies distinct_names(
            (#[trigger] here.scopes[k]).bindings,
        ) by {
            if k != scope {
                assert(here.scopes[k] == s.scopes[k]);
            }
        }
        match s.parent_of(scope) {
            Some(p) => {
                assert(here.parent_of(scope) == s.parent_of(scope));
                lemma_tick_keeps_unique(here, p);
            },
            None => {},
        }
    }
}

/// Whether a text matches a regular expression, as the `regex` crate decides
/// it; false where the pattern is no regular expression.
pub uninterp spec fn regex_matches(pattern: Seq<char>, text: Seq<char>) -> bool;

/// Compiles the pattern with `Regex::new` of the `regex` crate, as
/// `lazy_regex` hands it on, and asks `Regex::is_match` whether the text
/// matches. The contract names the answer.
#[verifier::external_body]
fn regex_is_match(pattern: &str, text: &Vec<char>) -> (r: bool)
    ensures
        r == regex_matches(pattern@, text@),
{
    let haystack: String = text.iter().collect();
    match lazy_regex::Regex::new(pattern) {
        Ok(regex) => regex.is_match(&haystack),
        Err(_) => false,
    }
}

/// The pattern of the names that stand for the keyword `function`: its
/// letters in order, each of them optional.
pub open spec fn function_pattern() -> Seq<char> {
    "^f?u?n?c?t?i?o?n?$"@
}

/// The value of a name that nothing binds: the number it spells, or
/// undefined where it spells what is no number; else the keyword `function`
/// where the name is one of its short forms; else the name itself as a string.
pub open spec fn default_value_spec(name: Seq<char>, short_for_function: bool) -> ValueView {
    match Number::parse_spec(name) {
        Some(n) => ValueView::Number(n),
        None => if spells_nan(name) {
            undefined()
        } else if short_for_function {
            ValueView::Keyword(Keyword::Function)
        } else {
            ValueView::String(name)
        },
    }
}

/// The value of a name that nothing binds, given whether the name is a short
/// form of `function`.
pub fn default_value(name: &Vec<char>, short_for_function: bool) -> (r: Value)
    ensures
        r@ == default_value_spec(name@, short_for_function),
{
    match Number::parse(name) {
        Some(n) => Value::Number(n),
        None => {
            if Number::is_nan(name) {
                Value::empty_object()
            } else if short_for_function {
                Value::Keyword(Keyword::Function)
            } else {
                Value::String(copy_text(name))
            }
        },
    }
}

/// The index of the first binding with the given name.
pub fn position(bindings: &Vec<Binding>, name: &Vec<char>) -> (r: Option<usize>)
    ensures
        match find_binding(views(bindings@), name@) {
            Some(i) => r == Some(i as usize) && 0 <= i < bindings.len(),
            None => r is None,
        },
{
    let mut i: usize = 0;
    assert(views(bindings@).take(0) =~= Seq::empty());
    while i < bindings.len()
        invariant
            i <= bindings.len(),
            find_binding(views(bindings@).take(i as int), name@) is None,
        decreases bindings.len() - i,
    {
        proof {
            let t = views(bindings@).take(i + 1);
            assert(t.drop_last() =~= views(bindings@).take(i as int));
            assert(t.last() == bindings@[i as int]@);
        }
        if text_eq(&bindings[i].name, name) {
            proof {
                lemma_find_prefix(views(bindings@), name@, i + 1);
            }
            return Some(i);
        }
        i += 1;
    }
    assert(views(bindings@).take(bindings.len() as int) =~= views(bindings@));
    None
}

/// What is found in the first `n` bindings is found in all of them.
proof fn lemma_find_prefix(bindings: Seq<BindingView>, name: Seq<char>, n: int)
    requires
        0 <= n <= bindings.len(),
        find_binding(bindings.take(n), name) is Some,
    ensures
        find_binding(bindings, name) == find_binding(bindings.take(n), name),
    decreases bindings.len(),
{
    if n < bindings.len() {
        let shorter = bindings.drop_last();
        assert(shorter.take(n) =~= bindings.take(n));
        lemma_find_prefix(shorter, name, n);
    } else {
        assert(bindings.take(n) =~= bindings);
    }
}

impl State {
    /// Binds `key` in `scope`.
    pub fn insert(&mut self, scope: usize, key: Vec<char>, value: Pointer, lifetime: Lifetime)
        ensures
            final(self)@ == old(self)@.insert(scope, key@, value, lifetime),
            old(self)@.unique() ==> final(self)@.unique(),
    {
        proof {
            lemma_state_keeps_unique(self@, HeapView::empty(), scope, key@, value, lifetime);
        }
        if scope < self.scopes.len() {
            let ghost before = self.scopes@;
            let found = position(&self.scopes[scope].bindings, &key);
            let binding = Binding { name: key, pointer: value, lifetime };
            let layer = &mut self.scopes[scope];
            match found {
                Some(i) => {
                    proof {
                        lemma_views_update(layer.bindings@, i as int, binding);
                    }
                    layer.bindings.set(i, binding);
                },
                None => {
                    proof {
                        lemma_views_push(layer.bindings@, binding);
                    }
                    layer.bindings.push(binding);
                },
            }
            proof {
                assert(self.scopes@.len() == before.len());
                assert(self@.scopes =~= old(self)@.insert(scope, key@, value, lifetime).scopes);
            }
        }
    }
    /// The environment of a new program.
    pub fn new(heap: &mut Heap) -> (r: State)
        ensures
            (final(heap)@, r@) == StateView::initial(old(heap)@),
            r@.unique(),
            old(heap)@.well_keyed() ==> final(heap)@.well_keyed(),
    {
        proof {
            lemma_state_keeps_unique(
                StateView::initial(heap@).1,
                heap@,
                0,
                Seq::empty(),
                Pointer::ConstConst(0),
                Lifetime::Default,
            );
        }
        let mut list: Vec<(Vec<char>, Value)> = Vec::new();
        list.push((chars_of("🥧"), Value::Number(Number::pi())));
        list.push((chars_of("class"), Value::Keyword(Keyword::Class)));
        list.push((chars_of("className"), Value::Keyword(Keyword::Class)));
        list.push((chars_of("const"), Value::Keyword(Keyword::Const)));
        list.push((chars_of("current"), Value::Keyword(Keyword::Current)));
        list.push((chars_of("delete"), Value::Keyword(Keyword::Delete)));
        list.push((chars_of("eval"), Value::Keyword(Keyword::Eval)));
        list.push((chars_of("false"), Value::Boolean(Boolean::False)));
        list.push((chars_of("forget"), Value::Keyword(Keyword::Forget)));
        list.push((chars_of("if"), Value::Keyword(Keyword::If)));
        list.push((chars_of("infinity"), Value::Number(Number::infinity())));
        list.push((chars_of("maybe"), Value::Boolean(Boolean::Maybe)));
        list.push((chars_of("next"), Value::Keyword(Keyword::Next)));
        list.push((chars_of("new"), Value::Keyword(Keyword::New)));
        list.push((chars_of("previous"), Value::Keyword(Keyword::Previous)));
        list.push((chars_of("true"), Value::Boolean(Boolean::True)));
        list.push((chars_of("var"), Value::Keyword(Keyword::Var)));
        list.push((chars_of("when"), Value::Keyword(Keyword::When)));
        list.push((chars_of("∞"), Value::Number(Number::infinity())));
        assert(views(list@) =~= seeds());
        let mut bindings: Vec<Binding> = Vec::new();
        assert(views(bindings@) =~= Seq::empty());
        let mut i: usize = 0;
        while i < list.len()
            invariant
                i <= list.len(),
                views(list@) == seeds(),
                (heap@, views(bindings@)) == seeded(old(heap)@, Seq::empty(), seeds(), i as int),
                old(heap)@.well_keyed() ==> heap@.well_keyed(),
            decreases list.len() - i,
        {
            assert(views(list@)[i as int] == list@[i as int]@);
            proof {
                lemma_seeds_hold_no_object(i as int);
            }
            let value = list[i].1.copy();
            let pointer = Pointer::from(heap, value);
            bind_in(
                &mut bindings,
                Binding { name: copy_text(&list[i].0), pointer, lifetime: Lifetime::Default },
            );
            i += 1;
        }
        assert(well_keyed(undefined())) by {
            assert(distinct_keys(Seq::empty()));
        }
        let undefined = Pointer::from(heap, Value::empty_object());
        bind_in(
            &mut bindings,
            Binding { name: chars_of("undefined"), pointer: undefined, lifetime: Lifetime::Default },
        );
        let mut scopes: Vec<Scope> = Vec::new();
        let root = Scope { parent: None, bindings };
        scopes.push(root);
        assert(views(scopes@) =~= seq![root@]);
        State { scopes, undefined }
    }

    /// Opens a new, empty layer inside `parent` and gives its index.
    pub fn from_parent(&mut self, parent: usize) -> (r: usize)
        ensures
            (final(self)@, r) == old(self)@.from_parent(parent),
            old(self)@.unique() ==> final(self)@.unique(),
    {
        proof {
            lemma_state_keeps_unique(
                self@,
                HeapView::empty(),
                parent,
                Seq::empty(),
                Pointer::ConstConst(0),
                Lifetime::Default,
            );
        }
        let r: usize = self.scopes.len();
        let layer = Scope { parent: Some(parent), bindings: Vec::new() };
        proof {
            assert(layer@.bindings =~= Seq::empty());
            lemma_views_push(self.scopes@, layer);
        }
        self.scopes.push(layer);
        r
    }

    /// The parent of a layer, where it has one that is an earlier layer.
    pub fn parent_of(&self, scope: usize) -> (r: Option<usize>)
        ensures
            r == self@.parent_of(scope),
            r matches Some(p) ==> p < scope,
    {
        if scope < self.scopes.len() {
            match self.scopes[scope].parent {
                Some(p) => {
                    if p < scope {
                        Some(p)
                    } else {
                        None
                    }
                },
                None => None,
            }
        } else {
            None
        }
    }

    /// The nearest layer, from `scope` outwards, that binds `key`, with the
    /// index of the binding in it; or else the outermost layer.
    fn find(&self, scope: usize, key: &Vec<char>) -> (r: Result<(usize, usize), usize>)
        ensures
            match r {
                Ok((layer, i)) => self@.binder(scope, key@) == Some(layer) && layer
                    < self.scopes.len() && find_binding(self@.bindings_of(layer), key@) == Some(
                    i as int,
                ) && i < self.scopes[layer as int].bindings.len(),
                Err(root) => self@.binder(scope, key@) is None && root == self@.root_of(scope),
            },
    {
        let mut s: usize = scope;
        loop
            invariant
                self@.binder(scope, key@) == self@.binder(s, key@),
                self@.root_of(scope) == self@.root_of(s),
            decreases s,
        {
            if s < self.scopes.len() {
                if let Some(i) = position(&self.scopes[s].bindings, key) {
                    return Ok((s, i));
                }
            }
            match self.parent_of(s) {
                Some(p) => {
                    s = p;
                },
                None => {
                    return Err(s);
                },
            }
        }
    }

    /// Looks `key` up from `scope` outwards; a name that nothing binds gets
    /// its default value in the outermost layer.
    pub fn get(&mut self, heap: &mut Heap, scope: usize, key: &Vec<char>) -> (r: Pointer)
        ensures
            (final(heap)@, final(self)@, r) == old(self)@.get(old(heap)@, scope, key@),
            old(self)@.unique() ==> final(self)@.unique(),
    {
        proof {
            lemma_state_keeps_unique(
                self@,
                heap@,
                scope,
                key@,
                Pointer::ConstConst(0),
                Lifetime::Default,
            );
        }
        match self.find(scope, key) {
            Ok((layer, i)) => self.scopes[layer].bindings[i].pointer,
            Err(root) => {
                let short_for_function: bool = match Number::parse(key) {
                    Some(_) => false,
                    None => regex_is_match("^f?u?n?c?t?i?o?n?$", key),
                };
                let value = default_value(key, short_for_function);
                let pointer = Pointer::from(heap, value);
                self.insert(root, copy_text(key), pointer, Lifetime::Default);
                pointer
            },
        }
    }

    /// Binds `key` to undefined in the nearest layer that binds it, or in
    /// `scope` where none does.
    pub fn delete(&mut self, scope: usize, key: &Vec<char>)
        ensures
            final(self)@ == old(self)@.delete(scope, key@),
            old(self)@.unique() ==> final(self)@.unique(),
    {
        proof {
            lemma_state_keeps_unique(
                self@,
                HeapView::empty(),
                scope,
                key@,
                Pointer::ConstConst(0),
                Lifetime::Default,
            );
        }
        let undefined = self.undefined;
        match self.find(scope, key) {
            Ok((layer, _)) => self.insert(layer, copy_text(key), undefined, Lifetime::Default),
            Err(_) => self.insert(scope, copy_text(key), undefined, Lifetime::Default),
        }
    }

    /// The bindings of a layer as the entries of an object.
    pub fn locals_to_object(&self, scope: usize) -> (r: Vec<Member>)
        ensures
            views(r@) == self@.locals_to_object(scope),
            distinct_names(self@.bindings_of(scope)) ==> distinct_keys(views(r@)),
    {
        proof {
            if distinct_names(self@.bindings_of(scope)) {
                let bindings = self@.bindings_of(scope);
                let members = self@.locals_to_object(scope);
                assert forall|i: int, j: int| 0 <= i < j < members.len() implies (
                #[trigger] members[i]).key != (#[trigger] members[j]).key by {
                    assert(bindings[i].name != bindings[j].name);
                }
            }
        }
        let mut out: Vec<Member> = Vec::new();
        if scope < self.scopes.len() {
            let bindings = &self.scopes[scope].bindings;
            let mut i: usize = 0;
            while i < bindings.len()
                invariant
                    i <= bindings.len(),
                    out@.len() == i,
                    forall|j: int|
                        0 <= j < i ==> (#[trigger] out@[j])@ == (MemberView {
                            key: ValueView::String(bindings@[j].name@),
                            pointer: bindings@[j].pointer,
                        }),
                decreases bindings.len() - i,
            {
                out.push(
                    Member {
                        key: Value::String(copy_text(&bindings[i].name)),
                        pointer: bindings[i].pointer,
                    },
                );
                i += 1;
            }
        }
        assert(views(out@) =~= self@.locals_to_object(scope));
        out
    }

    /// One tick of a layer and of every layer around it.
    pub fn tick(&mut self, scope: usize)
        ensures
            final(self)@ == old(self)@.tick(scope),
            old(self)@.unique() ==> final(self)@.unique(),
    {
        proof {
            if self@.unique() {
                lemma_tick_keeps_unique(self@, scope);
            }
        }
        let undefined = self.undefined;
        let mut s: usize = scope;
        loop
            invariant
                undefined == self.undefined,
                self@.tick(s) == old(self)@.tick(scope),
                old(self)@.unique() ==> old(self)@.tick(scope).unique(),
            decreases s,
        {
            if s >= self.scopes.len() {
                return ;
            }
            let ghost before = self@;
            let parent = self.parent_of(s);
            let layer = &mut self.scopes[s];
            let ghost start = views(layer.bindings@);
            assert(start == before.scopes[s as int].bindings);
            let mut i: usize = 0;
            while i < layer.bindings.len()
                invariant
                    i <= layer.bindings.len(),
                    layer.bindings.len() == start.len(),
                    layer.parent == before.scopes[s as int].parent,
                    forall|j: int|
                        0 <= j < i ==> (#[trigger] layer.bindings@[j])@ == ticked(
                            start[j],
                            undefined,
                        ),
                    forall|j: int|
                        i <= j < start.len() ==> (#[trigger] layer.bindings@[j])@ == start[j],
                decreases layer.bindings.len() - i,
            {
                let binding = &mut layer.bindings[i];
                match binding.lifetime {
                    Lifetime::Default => {},
                    Lifetime::Ticks(t) => {
                        if t < -1 {
                            binding.lifetime = Lifetime::Ticks(t + 1);
                        } else if t > 1 {
                            binding.lifetime = Lifetime::Ticks(t - 1);
                        } else {
                            binding.pointer = undefined;
                            binding.lifetime = Lifetime::Default;
                        }
                    },
                }
                i += 1;
            }
            proof {
                let wanted = Seq::new(
                    before.scopes[s as int].bindings.len(),
                    |i: int| ticked(before.scopes[s as int].bindings[i], before.undefined),
                );
                assert(self.scopes@.len() == before.scopes.len());
                assert(self@.scopes[s as int].bindings =~= wanted);
                assert(self@.scopes[s as int].parent == before.scopes[s as int].parent);
                assert forall|j: int| 0 <= j < before.scopes.len() && j != s implies self@.scopes[j]
                    == before.scopes[j] by {}
                assert(self@.scopes =~= before.scopes.update(
                    s as int,
                    ScopeView {
                        bindings: Seq::new(
                            before.scopes[s as int].bindings.len(),
                            |i: int| ticked(before.scopes[s as int].bindings[i], before.undefined),
                        ),
                        ..before.scopes[s as int]
                    },
                ));
            }
            match parent {
                Some(p) => {
                    s = p;
                },
                None => {
                    return ;
                },
            }
        }
    }
}

/// Binds a name in a list of bindings.
fn bind_in(bindings: &mut Vec<Binding>, binding: Binding)
    ensures
        views(final(bindings)@) == bind(views(old(bindings)@), binding@),
{
    match position(bindings, &binding.name) {
        Some(i) => {
            proof {
                lemma_views_update(bindings@, i as int, binding);
            }
            bindings.set(i, binding);
        },
        None => {
            proof {
                lemma_views_push(bindings@, binding);
            }
            bindings.push(binding);
        },
    }
}

} // verus!
