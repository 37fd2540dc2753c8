//! The scope chain.
//!
//! All scopes of a run live in one store and are named by their place in
//! it; a scope names the scope that encloses it. A scope is never removed,
//! so a function that was declared in it finds it again after the block
//! that made it has ended. A scope holds its bindings in a hash map from
//! names to values.
use vstd::prelude::*;
use vstd::hash_map::StringHashMap;
use crate::error::LoxResult;
use crate::error::LoxResultView;
use crate::token::Token;
use crate::token::TokenView;
use crate::value::object::Object;

verus! {

/// One scope: its bindings and the scope around it.
pub struct ScopeView {
    pub values: Map<Seq<char>, Object>,
    pub enclosing: Option<usize>,
}

/// The empty scope inside `enclosing`.
pub open spec fn fresh_scope(enclosing: Option<usize>) -> ScopeView {
    ScopeView { values: Map::empty(), enclosing }
}

/// The scope with `name` bound to `value`, whatever it was bound to.
pub open spec fn bind(scope: ScopeView, name: Seq<char>, value: Object) -> ScopeView {
    ScopeView { values: scope.values.insert(name, value), enclosing: scope.enclosing }
}

/// Every scope but the outermost lies inside one that was made before it.
pub open spec fn chained(scopes: Seq<ScopeView>) -> bool {
    &&& scopes.len() > 0
    &&& forall|i: int|
        0 <= i < scopes.len() ==> match (#[trigger] scopes[i]).enclosing {
            Some(outer) => outer < i,
            None => true,
        }
}

/// The innermost scope that binds `name`, seen from `scope` outward.
pub open spec fn resolve(scopes: Seq<ScopeView>, scope: nat, name: Seq<char>) -> Option<nat>
    decreases scope,
{
    if scope >= scopes.len() {
        None
    } else if scopes[scope as int].values.contains_key(name) {
        Some(scope)
    } else {
        match scopes[scope as int].enclosing {
            Some(outer) => if outer < scope {
                resolve(scopes, outer as nat, name)
            } else {
                None
            },
            None => None,
        }
    }
}

/// What `name` stands for, seen from `scope`.
pub open spec fn lookup(scopes: Seq<ScopeView>, scope: nat, name: Seq<char>) -> Option<Object> {
    match resolve(scopes, scope, name) {
        Some(found) => Some(scopes[found as int].values[name]),
        None => None,
    }
}

/// The scopes after `name` was bound to `value` in scope `scope`.
pub open spec fn defined(scopes: Seq<ScopeView>, scope: nat, name: Seq<char>, value: Object) -> Seq<
    ScopeView,
> {
    scopes.update(scope as int, bind(scopes[scope as int], name, value))
}

/// The scopes after an assignment to `name`, seen from `scope`: the
/// innermost scope that binds the name is changed; where none does,
/// nothing is.
pub open spec fn assigned(scopes: Seq<ScopeView>, scope: nat, name: Seq<char>, value: Object) -> Seq<
    ScopeView,
> {
    match resolve(scopes, scope, name) {
        Some(found) => defined(scopes, found, name, value),
        None => scopes,
    }
}

/// The error for a name that no scope of the chain binds.
pub open spec fn undefined_variable(name: TokenView) -> LoxResultView {
    LoxResultView::RuntimeError {
        token: name,
        message: "undefined variable `"@ + name.lexeme + "`"@,
    }
}

/// One scope as it is held: its bindings in a hash map.
struct Scope {
    values: StringHashMap<Object>,
    enclosing: Option<usize>,
}

impl Scope {
    spec fn view(&self) -> ScopeView {
        ScopeView { values: self.values@, enclosing: self.enclosing }
    }
}

/// The store of scopes. Scope 0 is the outermost one, the globals.
pub struct Environment {
    scopes: Vec<Scope>,
}

impl Environment {
    /// The scopes, in the order they were made.
    pub closed spec fn view(&self) -> Seq<ScopeView> {
        Seq::new(self.scopes@.len(), |i: int| self.scopes@[i].view())
    }

    /// The scopes are chained, the globals exist.
    pub closed spec fn wf(&self) -> bool {
        chained(self@)
    }

    /// A store with the one scope of the globals, which binds nothing.
    pub fn new() -> (environment: Self)
        ensures
            environment.wf(),
            environment@ == seq![fresh_scope(None)],
    {
        let mut scopes: Vec<Scope> = Vec::new();
        scopes.push(Scope { values: StringHashMap::new(), enclosing: None });
        let environment = Self { scopes };
        assert(environment@ =~= seq![fresh_scope(None)]);
        environment
    }

    /// Makes an empty scope inside `enclosing` and gives its place.
    pub fn new_enclosing(&mut self, enclosing: usize) -> (scope: usize)
        requires
            old(self).wf(),
            enclosing < old(self)@.len(),
        ensures
            final(self).wf(),
            scope == old(self)@.len(),
            final(self)@ == old(self)@.push(fresh_scope(Some(enclosing))),
    {
        let scope = self.scopes.len();
        self.scopes.push(Scope { values: StringHashMap::new(), enclosing: Some(enclosing) });
        assert(self@ =~= old(self)@.push(fresh_scope(Some(enclosing))));
        scope
    }

    /// The scope around scope `scope`; the globals have none.
    pub fn enclosing(&self, scope: usize) -> (outer: Option<usize>)
        requires
            self.wf(),
            scope < self@.len(),
        ensures
            outer == self@[scope as int].enclosing,
    {
        self.scopes[scope].enclosing
    }

    /// How many scopes there are.
    pub fn len(&self) -> (count: usize)
        ensures
            count == self@.len(),
    {
        self.scopes.len()
    }

    /// Binds `name` in scope `scope`, whether or not it is bound there
    /// already. No other scope is touched.
    pub fn define(&mut self, scope: usize, name: String, value: Object)
        requires
            old(self).wf(),
            scope < old(self)@.len(),
        ensures
            final(self).wf(),
            final(self)@ == defined(old(self)@, scope as nat, name@, value),
            final(self)@.len() == old(self)@.len(),
    {
        self.scopes[scope].values.insert(name, value);
        assert(self@ =~= defined(old(self)@, scope as nat, name@, value));
        proof {
            lemma_defined_chained(old(self)@, scope as nat, name@, value);
        }
    }

    /// The value of `name`, seen from `scope`: that of the innermost scope
    /// that binds it.
    pub fn get(&self, scope: usize, name: &Token) -> (result: Result<Object, LoxResult>)
        requires
            self.wf(),
            scope < self@.len(),
        ensures
            match lookup(self@, scope as nat, name.lexeme@) {
                Some(value) => result == Ok::<Object, LoxResult>(value),
                None => result matches Err(e) && e@ == undefined_variable(name@),
            },
    {
        let mut at: usize = scope;
        loop
            invariant
                self.wf(),
                at < self@.len(),
                lookup(self@, at as nat, name.lexeme@) == lookup(self@, scope as nat, name.lexeme@),
            decreases at,
        {
            assert(self@[at as int] == self.scopes@[at as int].view());
            match self.scopes[at].values.get(name.lexeme.as_str()) {
                Some(value) => {
                    return Ok(value.clone());
                },
                None => {},
            }
            match self.scopes[at].enclosing {
                Some(outer) => {
                    at = outer;
                },
                None => {
                    return Err(Self::undefined(name));
                },
            }
        }
    }

    /// Gives `name` a new value in the innermost scope that binds it, seen
    /// from `scope`. A name that no scope binds is an error, and nothing
    /// is changed.
    pub fn assign(&mut self, scope: usize, name: &Token, value: Object) -> (result: Result<
        (),
        LoxResult,
    >)
        requires
            old(self).wf(),
            scope < old(self)@.len(),
        ensures
            final(self).wf(),
            final(self)@ == assigned(old(self)@, scope as nat, name.lexeme@, value),
            final(self)@.len() == old(self)@.len(),
            match resolve(old(self)@, scope as nat, name.lexeme@) {
                Some(_) => result is Ok,
                None => result matches Err(e) && e@ == undefined_variable(name@),
            },
    {
        match self.find_scope(scope, &name.lexeme) {
            Some(found) => {
                self.define(found, name.as_string(), value);
                Ok(())
            },
            None => Err(Self::undefined(name)),
        }
    }

    fn undefined(name: &Token) -> (error: LoxResult)
        ensures
            error@ == undefined_variable(name@),
    {
        let message = String::from_str("undefined variable `").concat(name.lexeme.as_str()).concat(
            "`",
        );
        LoxResult::runtime_error(name, message)
    }

    /// The innermost scope that binds `name`, seen from `scope`.
    fn find_scope(&self, scope: usize, name: &String) -> (place: Option<usize>)
        requires
            self.wf(),
            scope < self@.len(),
        ensures
            match place {
                Some(found) => resolve(self@, scope as nat, name@) == Some(found as nat) && found
                    < self@.len() && self@[found as int].values.contains_key(name@),
                None => resolve(self@, scope as nat, name@) is None,
            },
    {
        let mut at: usize = scope;
        loop
            invariant
                self.wf(),
                at < self@.len(),
                resolve(self@, at as nat, name@) == resolve(self@, scope as nat, name@),
            decreases at,
        {
            assert(self@[at as int] == self.scopes@[at as int].view());
            if self.scopes[at].values.contains_key(name.as_str()) {
                return Some(at);
            }
            match self.scopes[at].enclosing {
                Some(outer) => {
                    at = outer;
                },
                None => {
                    return None;
                },
            }
        }
    }
}

/// Binding a name in a scope that exists changes neither the number of
/// scopes nor how they are chained.
pub proof fn lemma_defined_chained(scopes: Seq<ScopeView>, scope: nat, name: Seq<char>, value: Object)
    requires
        chained(scopes),
        scope < scopes.len(),
    ensures
        chained(defined(scopes, scope, name, value)),
        defined(scopes, scope, name, value).len() == scopes.len(),
{
    let after = defined(scopes, scope, name, value);
    assert forall|i: int| 0 <= i < after.len() implies match (#[trigger] after[i]).enclosing {
        Some(outer) => outer < i,
        None => true,
    } by {
        assert(after[i].enclosing == scopes[i].enclosing);
    }
}

/// A declaration shadows: seen from the scope it was made in, the name
/// stands for the declared value, whatever the scopes around bind.
pub proof fn lemma_define_then_get(scopes: Seq<ScopeView>, scope: nat, name: Seq<char>, value: Object)
    requires
        scope < scopes.len(),
    ensures
        lookup(defined(scopes, scope, name, value), scope, name) == Some(value),
{
}

/// A declaration acts on one scope only: every other scope is as it was,
/// so what was shadowed is found again from outside.
pub proof fn lemma_define_elsewhere(
    scopes: Seq<ScopeView>,
    scope: nat,
    name: Seq<char>,
    value: Object,
    other: nat,
)
    requires
        scope < scopes.len(),
        other < scopes.len(),
        other != scope,
    ensures
        defined(scopes, scope, name, value)[other as int] == scopes[other as int],
{
}

/// Seen from a scope whose chain does not pass through scope `scope`,
/// nothing changes when a name is bound in `scope`. So the bindings that
/// a function captured stay what they were while other scopes come and go.
pub proof fn lemma_define_unseen(
    scopes: Seq<ScopeView>,
    scope: nat,
    name: Seq<char>,
    value: Object,
    from: nat,
    other: Seq<char>,
)
    requires
        chained(scopes),
        scope < scopes.len(),
        from < scope,
    ensures
        lookup(defined(scopes, scope, name, value), from, other) == lookup(scopes, from, other),
    decreases from,
{
    let after = defined(scopes, scope, name, value);
    assert(after[from as int] == scopes[from as int]);
    if !scopes[from as int].values.contains_key(other) {
        match scopes[from as int].enclosing {
            Some(outer) => {
                lemma_define_unseen(scopes, scope, name, value, outer as nat, other);
            },
            None => {},
        }
    }
}

/// An assignment keeps every scope's set of bound names, so every name
/// resolves to the scope it resolved to before.
pub proof fn lemma_assigned_resolve(
    scopes: Seq<ScopeView>,
    scope: nat,
    name: Seq<char>,
    value: Object,
    from: nat,
    other: Seq<char>,
)
    requires
        chained(scopes),
        resolve(scopes, scope, name) is Some,
    ensures
        resolve(assigned(scopes, scope, name, value), from, other) == resolve(scopes, from, other),
    decreases from,
{
    let found = resolve(scopes, scope, name)->0;
    lemma_resolve_binds(scopes, scope, name);
    let after = assigned(scopes, scope, name, value);
    if from < scopes.len() {
        assert(after[from as int].values.dom() =~= scopes[from as int].values.dom());
        assert(after[from as int].enclosing == scopes[from as int].enclosing);
        if !scopes[from as int].values.contains_key(other) {
            match scopes[from as int].enclosing {
                Some(outer) => {
                    if outer < from {
                        lemma_assigned_resolve(scopes, scope, name, value, outer as nat, other);
                    }
                },
                None => {},
            }
        }
    }
}

/// The scope that a name resolves to exists and binds the name.
pub proof fn lemma_resolve_binds(scopes: Seq<ScopeView>, scope: nat, name: Seq<char>)
    ensures
        match resolve(scopes, scope, name) {
            Some(found) => found <= scope && found < scopes.len() && scopes[found as int].values.contains_key(
                name,
            ),
            None => true,
        },
    decreases scope,
{
    if scope < scopes.len() && !scopes[scope as int].values.contains_key(name) {
        match scopes[scope as int].enclosing {
            Some(outer) => {
                if outer < scope {
                    lemma_resolve_binds(scopes, outer as nat, name);
                }
            },
            None => {},
        }
    }
}

/// An assignment to a name that an outer scope binds changes that outer
/// binding: afterwards the name stands for the new value, seen from the
/// scope of the assignment and from the scope that binds it, and no
/// other scope has changed; the inner scope has not come to bind it.
pub proof fn lemma_assign_reaches_outer(
    scopes: Seq<ScopeView>,
    scope: nat,
    name: Seq<char>,
    value: Object,
)
    requires
        chained(scopes),
        resolve(scopes, scope, name) is Some,
    ensures
        ({
            let found = resolve(scopes, scope, name)->0;
            let after = assigned(scopes, scope, name, value);
            &&& lookup(after, scope, name) == Some(value)
            &&& lookup(after, found, name) == Some(value)
            &&& forall|other: int|
                0 <= other < scopes.len() && other != found ==> after[other] == scopes[other]
            &&& found != scope ==> !after[scope as int].values.contains_key(name)
        }),
{
    lemma_resolve_binds(scopes, scope, name);
    lemma_assigned_resolve(scopes, scope, name, value, scope, name);
    let found = resolve(scopes, scope, name)->0;
    lemma_assigned_resolve(scopes, scope, name, value, found, name);
}

/// An assignment makes no scope and removes none.
pub proof fn lemma_assigned_len(scopes: Seq<ScopeView>, scope: nat, name: Seq<char>, value: Object)
    ensures
        assigned(scopes, scope, name, value).len() == scopes.len(),
{
    lemma_resolve_binds(scopes, scope, name);
}

/// An assignment to a name that no scope of the chain binds changes
/// nothing: no binding is made.
pub proof fn lemma_assign_undeclared(scopes: Seq<ScopeView>, scope: nat, name: Seq<char>, value: Object)
    requires
        resolve(scopes, scope, name) is None,
    ensures
        assigned(scopes, scope, name, value) == scopes,
        lookup(assigned(scopes, scope, name, value), scope, name) is None,
{
}


impl Environment {
    /// A well-formed store is chained.
    pub proof fn lemma_wf_chained(&self)
        requires
            self.wf(),
        ensures
            chained(self@),
    {
    }
}

} // verus!
