//! The chain of lexical scopes that evaluation reads and writes.

use crate::expr::{Literal, Value};
use vstd::prelude::*;
use vstd::string::StringExecFns;

verus! {

/// Mathematical model of the scope chain: one map from names to values for
/// each scope, the outermost first and the innermost last.
pub type Scopes = Seq<Map<Seq<char>, Value>>;

/// The value that `name` resolves to: that of the innermost scope that
/// binds it.
pub open spec fn lookup(scopes: Scopes, name: Seq<char>) -> Option<Value>
    decreases scopes.len(),
{
    if scopes.len() == 0 {
        None
    } else if scopes.last().contains_key(name) {
        Some(scopes.last()[name])
    } else {
        lookup(scopes.drop_last(), name)
    }
}

/// The scopes after `name` is declared: the innermost scope binds it to
/// `value`, whether or not it did before.
pub open spec fn define(scopes: Scopes, name: Seq<char>, value: Value) -> Scopes {
    if scopes.len() == 0 {
        scopes
    } else {
        scopes.update(scopes.len() - 1, scopes.last().insert(name, value))
    }
}

/// The scopes after an assignment to `name`: the innermost scope that binds
/// it now binds it to `value`. `None` where no scope binds it.
pub open spec fn assign(scopes: Scopes, name: Seq<char>, value: Value) -> Option<Scopes>
    decreases scopes.len(),
{
    if scopes.len() == 0 {
        None
    } else if scopes.last().contains_key(name) {
        Some(scopes.update(scopes.len() - 1, scopes.last().insert(name, value)))
    } else {
        match assign(scopes.drop_last(), name, value) {
            Some(outer) => Some(outer.push(scopes.last())),
            None => None,
        }
    }
}

/// A declaration is what the lookups after it find, whatever the name was
/// bound to before, in this scope or in an enclosing one.
pub proof fn lemma_define_then_lookup(scopes: Scopes, name: Seq<char>, value: Value)
    requires
        scopes.len() > 0,
    ensures
        lookup(define(scopes, name, value), name) == Some(value),
{
}

/// Declaring a name again in the same scope overwrites: of two
/// declarations in a row only the second counts.
pub proof fn lemma_redefine_overwrites(
    scopes: Scopes,
    name: Seq<char>,
    first: Value,
    second: Value,
)
    requires
        scopes.len() > 0,
    ensures
        define(define(scopes, name, first), name, second) == define(scopes, name, second),
        lookup(define(define(scopes, name, first), name, second), name) == Some(second),
{
    let once = define(scopes, name, first);
    assert(once.last().insert(name, second) =~= scopes.last().insert(name, second));
    assert(define(once, name, second) =~= define(scopes, name, second));
}

/// A declaration leaves every other name as it was.
pub proof fn lemma_define_keeps_others(
    scopes: Scopes,
    name: Seq<char>,
    value: Value,
    other: Seq<char>,
)
    requires
        other != name,
    ensures
        lookup(define(scopes, name, value), other) == lookup(scopes, other),
{
    if scopes.len() > 0 {
        let after = define(scopes, name, value);
        assert(after.drop_last() =~= scopes.drop_last());
    }
}

/// Shadowing: a declaration in a new inner scope is what the lookups in
/// that scope find, and once the inner scope is left the scopes are as
/// they were before it was entered.
pub proof fn lemma_shadowing(scopes: Scopes, name: Seq<char>, value: Value)
    ensures
        ({
            let inside = define(scopes.push(Map::empty()), name, value);
            &&& lookup(inside, name) == Some(value)
            &&& inside.drop_last() == scopes
        }),
{
    let inside = define(scopes.push(Map::empty()), name, value);
    assert(inside.drop_last() =~= scopes);
}

/// An assignment succeeds exactly where a lookup of the name does. It
/// adds no scope, and the lookups after it find the assigned value.
pub proof fn lemma_assign_needs_binding(scopes: Scopes, name: Seq<char>, value: Value)
    ensures
        assign(scopes, name, value) is None <==> lookup(scopes, name) is None,
        assign(scopes, name, value) matches Some(after) ==> after.len() == scopes.len() && lookup(
            after,
            name,
        ) == Some(value),
    decreases scopes.len(),
{
    if scopes.len() > 0 && !scopes.last().contains_key(name) {
        lemma_assign_needs_binding(scopes.drop_last(), name, value);
        if let Some(outer) = assign(scopes.drop_last(), name, value) {
            let after = outer.push(scopes.last());
            assert(after.drop_last() =~= outer);
        }
    }
}

/// An assignment never makes a binding: every scope binds the names it
/// bound before, and no others.
pub proof fn lemma_assign_keeps_names(scopes: Scopes, name: Seq<char>, value: Value, i: int)
    requires
        0 <= i < scopes.len(),
    ensures
        assign(scopes, name, value) matches Some(after) ==> after.len() == scopes.len()
            && after[i].dom() == scopes[i].dom(),
    decreases scopes.len(),
{
    if scopes.last().contains_key(name) {
        let after = assign(scopes, name, value)->Some_0;
        assert(scopes.last().insert(name, value).dom() =~= scopes.last().dom());
    } else {
        lemma_assign_needs_binding(scopes.drop_last(), name, value);
        if i < scopes.len() - 1 {
            lemma_assign_keeps_names(scopes.drop_last(), name, value, i);
        }
    }
}

/// Tells whether two texts are the same, character by character.
pub fn same_text(a: &str, b: &str) -> (same: bool)
    ensures
        same == (a@ == b@),
{
    let x = a.as_bytes();
    let y = b.as_bytes();
    proof {
        // a text is what its bytes decode to, so the bytes tell texts apart
        vstd::utf8::encode_utf8_decode_utf8(a@);
        vstd::utf8::encode_utf8_decode_utf8(b@);
    }
    if x.len() != y.len() {
        return false;
    }
    let mut i: usize = 0;
    while i < x.len()
        invariant
            i <= x@.len(),
            x@.len() == y@.len(),
            x@ == vstd::utf8::encode_utf8(a@),
            y@ == vstd::utf8::encode_utf8(b@),
            forall|j: int| 0 <= j < i ==> x@[j] == y@[j],
        decreases x.len() - i,
    {
        if x[i] != y[i] {
            return false;
        }
        i += 1;
    }
    assert(x@ =~= y@);
    true
}

struct Binding {
    name: String,
    value: Literal,
}

struct Scope {
    bindings: Vec<Binding>,
}

spec fn name_at(bindings: Seq<Binding>, i: int) -> Seq<char> {
    bindings[i].name@
}

spec fn binds(bindings: Seq<Binding>, name: Seq<char>) -> bool {
    exists|i: int| 0 <= i < bindings.len() && #[trigger] name_at(bindings, i) == name
}

spec fn place_of(bindings: Seq<Binding>, name: Seq<char>) -> int {
    choose|i: int| 0 <= i < bindings.len() && #[trigger] name_at(bindings, i) == name
}

spec fn distinct(bindings: Seq<Binding>) -> bool {
    forall|i: int, j: int|
        0 <= i < j < bindings.len() ==> #[trigger] name_at(bindings, i) != #[trigger] name_at(
            bindings,
            j,
        )
}

spec fn bindings_map(bindings: Seq<Binding>) -> Map<Seq<char>, Value> {
    Map::new(|name: Seq<char>| binds(bindings, name), |name: Seq<char>| bindings[place_of(bindings, name)].value@)
}

proof fn lemma_bound(bindings: Seq<Binding>, i: int)
    requires
        distinct(bindings),
        0 <= i < bindings.len(),
    ensures
        bindings_map(bindings).contains_key(bindings[i].name@),
        bindings_map(bindings)[bindings[i].name@] == bindings[i].value@,
{
    let name = name_at(bindings, i);
    assert(binds(bindings, name));
    let p = place_of(bindings, name);
    assert(name_at(bindings, p) == name);
    assert(p == i);
}

proof fn lemma_unbound(bindings: Seq<Binding>, name: Seq<char>)
    requires
        forall|i: int| 0 <= i < bindings.len() ==> #[trigger] name_at(bindings, i) != name,
    ensures
        !bindings_map(bindings).contains_key(name),
{
}

proof fn lemma_push(bindings: Seq<Binding>, binding: Binding)
    requires
        distinct(bindings),
        !binds(bindings, binding.name@),
    ensures
        distinct(bindings.push(binding)),
        bindings_map(bindings.push(binding)) == bindings_map(bindings).insert(
            binding.name@,
            binding.value@,
        ),
{
    let after = bindings.push(binding);
    assert forall|i: int, j: int| 0 <= i < j < after.len() implies #[trigger] name_at(after, i)
        != #[trigger] name_at(after, j) by {
        if j < bindings.len() {
            assert(name_at(bindings, i) != name_at(bindings, j));
        } else {
            assert(name_at(bindings, i) == name_at(after, i));
        }
    }
    assert forall|name: Seq<char>|
        bindings_map(after).contains_key(name) <==> bindings_map(bindings).insert(
            binding.name@,
            binding.value@,
        ).contains_key(name) by {
        if binds(after, name) {
            let p = place_of(after, name);
            if p < bindings.len() {
                assert(name_at(bindings, p) == name);
            }
        }
        if binds(bindings, name) {
            let p = place_of(bindings, name);
            assert(name_at(after, p) == name);
        }
        if name == binding.name@ {
            assert(name_at(after, bindings.len() as int) == name);
        }
    }
    assert forall|name: Seq<char>| bindings_map(after).contains_key(name) implies bindings_map(
        after,
    )[name] == bindings_map(bindings).insert(binding.name@, binding.value@)[name] by {
        let p = place_of(after, name);
        lemma_bound(after, p);
        if p < bindings.len() {
            assert(name_at(bindings, p) == name);
            lemma_bound(bindings, p);
        }
    }
    assert(bindings_map(after) =~= bindings_map(bindings).insert(binding.name@, binding.value@));
}

proof fn lemma_update(bindings: Seq<Binding>, i: int, binding: Binding)
    requires
        distinct(bindings),
        0 <= i < bindings.len(),
        binding.name@ == bindings[i].name@,
    ensures
        distinct(bindings.update(i, binding)),
        bindings_map(bindings.update(i, binding)) == bindings_map(bindings).insert(
            binding.name@,
            binding.value@,
        ),
{
    let after = bindings.update(i, binding);
    assert forall|a: int| 0 <= a < after.len() implies #[trigger] name_at(after, a) == name_at(
        bindings,
        a,
    ) by {}
    assert forall|a: int, b: int| 0 <= a < b < after.len() implies #[trigger] name_at(after, a)
        != #[trigger] name_at(after, b) by {
        assert(name_at(bindings, a) != name_at(bindings, b));
    }
    assert forall|name: Seq<char>|
        bindings_map(after).contains_key(name) <==> bindings_map(bindings).insert(
            binding.name@,
            binding.value@,
        ).contains_key(name) by {
        if binds(after, name) {
            let p = place_of(after, name);
            assert(name_at(bindings, p) == name);
        }
        if binds(bindings, name) {
            let p = place_of(bindings, name);
            assert(name_at(after, p) == name);
        }
        if name == binding.name@ {
            assert(name_at(after, i) == name);
        }
    }
    assert forall|name: Seq<char>| bindings_map(after).contains_key(name) implies bindings_map(
        after,
    )[name] == bindings_map(bindings).insert(binding.name@, binding.value@)[name] by {
        let p = place_of(after, name);
        lemma_bound(after, p);
        assert(name_at(bindings, p) == name);
        lemma_bound(bindings, p);
        if p != i {
            assert(name_at(bindings, p) != name_at(bindings, i));
        }
    }
    assert(bindings_map(after) =~= bindings_map(bindings).insert(binding.name@, binding.value@));
}

impl Scope {
    spec fn wf(&self) -> bool {
        distinct(self.bindings@)
    }

    spec fn map(&self) -> Map<Seq<char>, Value> {
        bindings_map(self.bindings@)
    }

    fn new() -> (scope: Self)
        ensures
            scope.wf(),
            scope.map() == Map::<Seq<char>, Value>::empty(),
    {
        let scope = Scope { bindings: Vec::new() };
        assert(scope.map() =~= Map::<Seq<char>, Value>::empty());
        scope
    }

    /// The place of the binding of `name`, if there is one.
    fn find(&self, name: &str) -> (found: Option<usize>)
        requires
            self.wf(),
        ensures
            match found {
                Some(i) => i < self.bindings.len() && self.bindings[i as int].name@ == name@
                    && self.map().contains_key(name@) && self.map()[name@]
                    == self.bindings[i as int].value@,
                None => !self.map().contains_key(name@) && !binds(self.bindings@, name@),
            },
    {
        let mut i: usize = 0;
        while i < self.bindings.len()
            invariant
                self.wf(),
                i <= self.bindings.len(),
                forall|j: int| 0 <= j < i ==> #[trigger] name_at(self.bindings@, j) != name@,
            decreases self.bindings.len() - i,
        {
            if same_text(self.bindings[i].name.as_str(), name) {
                proof {
                    lemma_bound(self.bindings@, i as int);
                }
                return Some(i);
            }
            assert(name_at(self.bindings@, i as int) != name@);
            i += 1;
        }
        proof {
            lemma_unbound(self.bindings@, name@);
        }
        None
    }

    /// Binds `name` to `value`, whether or not it was bound.
    fn set(&mut self, name: String, value: Literal)
        requires
            old(self).wf(),
        ensures
            final(self).wf(),
            final(self).map() == old(self).map().insert(name@, value@),
    {
        match self.find(name.as_str()) {
            Some(i) => {
                proof {
                    lemma_update(self.bindings@, i as int, Binding { name, value });
                }
                self.bindings.set(i, Binding { name, value });
            },
            None => {
                proof {
                    lemma_push(self.bindings@, Binding { name, value });
                }
                self.bindings.push(Binding { name, value });
            },
        }
    }
}

impl Scope {
    /// Gives the binding at `at` a new value.
    fn store(&mut self, at: usize, value: Literal)
        requires
            old(self).wf(),
            at < old(self).bindings.len(),
        ensures
            final(self).wf(),
            final(self).map() == old(self).map().insert(
                old(self).bindings[at as int].name@,
                value@,
            ),
    {
        let name = self.bindings[at].name.clone();
        proof {
            lemma_update(self.bindings@, at as int, Binding { name, value });
        }
        self.bindings.set(at, Binding { name, value });
    }
}

/// The scope chain. A new environment has one scope, the global one;
/// entering a block adds a scope and leaving it removes that scope.
pub struct Environment {
    scopes: Vec<Scope>,
}

impl View for Environment {
    type V = Scopes;

    closed spec fn view(&self) -> Scopes {
        Seq::new(self.scopes@.len(), |i: int| self.scopes@[i].map())
    }
}

impl Environment {
    /// Whether the environment is in order: it has a scope, and no scope
    /// holds a name twice.
    pub closed spec fn wf(&self) -> bool {
        &&& self.scopes@.len() > 0
        &&& forall|i: int| 0 <= i < self.scopes@.len() ==> #[trigger] self.scopes@[i].wf()
    }

    /// An environment in order has at least the global scope.
    pub proof fn lemma_has_scope(&self)
        requires
            self.wf(),
        ensures
            self@.len() >= 1,
    {
    }

    /// An environment with the global scope alone, empty.
    pub fn new() -> (env: Self)
        ensures
            env.wf(),
            env@ == seq![Map::<Seq<char>, Value>::empty()],
    {
        let mut scopes: Vec<Scope> = Vec::new();
        scopes.push(Scope::new());
        let env = Self { scopes };
        assert(env@ =~= seq![Map::<Seq<char>, Value>::empty()]);
        env
    }

    /// The environment of a block inside `parent`: the scopes of `parent`
    /// and a new empty one inside them.
    pub fn with_enclosing(parent: Environment) -> (env: Self)
        requires
            parent.wf(),
        ensures
            env.wf(),
            env@ == parent@.push(Map::<Seq<char>, Value>::empty()),
    {
        let mut env = parent;
        env.scopes.push(Scope::new());
        assert(env@ =~= parent@.push(Map::<Seq<char>, Value>::empty()));
        env
    }

    /// Enters a block: adds an empty innermost scope.
    pub fn begin_scope(&mut self)
        requires
            old(self).wf(),
        ensures
            final(self).wf(),
            final(self)@ == old(self)@.push(Map::<Seq<char>, Value>::empty()),
    {
        self.scopes.push(Scope::new());
        assert(self@ =~= old(self)@.push(Map::<Seq<char>, Value>::empty()));
    }

    /// Leaves a block: removes the innermost scope. The global scope
    /// stays.
    pub fn end_scope(&mut self)
        requires
            old(self).wf(),
        ensures
            final(self).wf(),
            final(self)@ == if old(self)@.len() > 1 {
                old(self)@.drop_last()
            } else {
                old(self)@
            },
    {
        if self.scopes.len() > 1 {
            self.scopes.pop();
            assert(self@ =~= old(self)@.drop_last());
        }
    }

    /// The number of scopes, the global one included.
    pub fn depth(&self) -> (n: usize)
        ensures
            n == self@.len(),
    {
        self.scopes.len()
    }

    /// The value of `key`: that of the innermost scope that binds it, or
    /// `None` where none does.
    pub fn get(&self, key: &str) -> (value: Option<Literal>)
        requires
            self.wf(),
        ensures
            match value {
                Some(literal) => lookup(self@, key@) == Some(literal@),
                None => lookup(self@, key@).is_none(),
            },
    {
        let mut i: usize = self.scopes.len();
        assert(self@.subrange(0, i as int) =~= self@);
        while i > 0
            invariant
                self.wf(),
                i <= self.scopes.len(),
                lookup(self@, key@) == lookup(self@.subrange(0, i as int), key@),
            decreases i,
        {
            let ghost upto = self@.subrange(0, i as int);
            i -= 1;
            assert(upto.drop_last() =~= self@.subrange(0, i as int));
            assert(upto.last() == self.scopes@[i as int].map());
            match self.scopes[i].find(key) {
                Some(j) => {
                    return Some(self.scopes[i].bindings[j].value.clone());
                },
                None => {},
            }
        }
        None
    }

    /// Declares `key` in the innermost scope with the value `val`. A name
    /// that the scope already binds is bound anew.
    pub fn define(&mut self, key: String, val: Literal)
        requires
            old(self).wf(),
        ensures
            final(self).wf(),
            final(self)@ == define(old(self)@, key@, val@),
            final(self)@.len() == old(self)@.len(),
    {
        let last = self.scopes.len() - 1;
        self.scopes[last].set(key, val);
        assert(self@ =~= define(old(self)@, key@, val@));
    }

    /// Assigns `val` to `key` in the innermost scope that binds it. Where
    /// no scope does, nothing changes and the error says which variable is
    /// not defined.
    pub fn assign(&mut self, key: String, val: Literal) -> (done: Result<(), String>)
        requires
            old(self).wf(),
        ensures
            final(self).wf(),
            final(self)@.len() == old(self)@.len(),
            match assign(old(self)@, key@, val@) {
                Some(scopes) => done is Ok && final(self)@ == scopes,
                None => done is Err && done->Err_0@ == "Undefined variable: "@ + key@
                    && final(self)@ == old(self)@,
            },
    {
        let mut i: usize = self.scopes.len();
        assert(self@.subrange(0, i as int) =~= self@);
        assert(self@.subrange(i as int, self@.len() as int) =~= Seq::empty());
        while i > 0
            invariant
                self.wf(),
                *self == *old(self),
                i <= self.scopes.len(),
                assign(self@, key@, val@) == match assign(
                    self@.subrange(0, i as int),
                    key@,
                    val@,
                ) {
                    Some(inner) => Some(inner + self@.subrange(i as int, self@.len() as int)),
                    None => None,
                },
            decreases i,
        {
            let ghost upto = self@.subrange(0, i as int);
            let ghost rest = self@.subrange(i as int, self@.len() as int);
            i -= 1;
            assert(upto.drop_last() =~= self@.subrange(0, i as int));
            assert(upto.last() == self.scopes@[i as int].map());
            match self.scopes[i].find(key.as_str()) {
                Some(at) => {
                    self.scopes[i].store(at, val);
                    assert(self@ =~= upto.update(i as int, upto.last().insert(key@, val@)) + rest);
                    return Ok(());
                },
                None => {
                    assert forall|inner: Scopes| #[trigger]
                        (inner.push(upto.last()) + rest) == inner + self@.subrange(
                            i as int,
                            self@.len() as int,
                        ) by {
                        assert((inner.push(upto.last()) + rest) =~= inner + self@.subrange(
                            i as int,
                            self@.len() as int,
                        ));
                    }
                },
            }
        }
        Err("Undefined variable: ".to_owned().concat(key.as_str()))
    }
}

} // verus!
