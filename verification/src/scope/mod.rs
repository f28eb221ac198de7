//! Scope types.
//!
//! Scopes form a forest held by a [`ScopeArena`]. Each scope owns a table of its own and names
//! the scope that encloses it; a [`ScopeId`] stands for a scope wherever one has to be
//! remembered, so any number of inner scopes can name the same enclosing scope.

pub mod table;
pub mod symbol;
pub mod memory;
pub mod laws;
pub use self::table::Table;

use vstd::prelude::*;

verus! {

/// Names one scope of a [`ScopeArena`]: its position in the arena.
#[derive(Clone, Copy, Debug, PartialEq, Eq, Hash, Structural)]
pub struct ScopeId(pub usize);

/// General scope object with underlying data structure `T`.
///
/// Scoping is a linked list of `Scope` objects from an innermost scope to the root scope,
/// which has no parent.
#[derive(Debug, Clone, PartialEq)]
pub struct Scope<T> {
    /// Underlying scoped data structure.
    pub item: T,
    /// The scope that encloses this one: `Some(..)` for every scope except a root.
    pub parent: Option<ScopeId>,
}

/// Whether every scope of `scopes` comes after the scope that encloses it.
pub open spec fn forest<T>(scopes: Seq<Scope<T>>) -> bool {
    forall|i: int|
        0 <= i < scopes.len() ==> match (#[trigger] scopes[i]).parent {
            Some(p) => p.0 < i,
            None => true,
        }
}

/// The chain of scopes from `scope` outward to its root, innermost first.
pub open spec fn ancestry<T>(scopes: Seq<Scope<T>>, scope: ScopeId) -> Seq<ScopeId>
    decreases scope.0,
{
    if scope.0 >= scopes.len() {
        Seq::empty()
    } else {
        match scopes[scope.0 as int].parent {
            Some(p) if p.0 < scope.0 => seq![scope] + ancestry(scopes, p),
            _ => seq![scope],
        }
    }
}

/// The nearest scope, from `scope` outward, whose table meets `wanted`: the first of
/// `ancestry(scopes, scope)` that does.
pub open spec fn nearest<T>(scopes: Seq<Scope<T>>, scope: ScopeId, wanted: spec_fn(T) -> bool)
    -> Option<ScopeId>
    decreases scope.0,
{
    if scope.0 >= scopes.len() {
        None
    } else if wanted(scopes[scope.0 as int].item) {
        Some(scope)
    } else {
        match scopes[scope.0 as int].parent {
            Some(p) if p.0 < scope.0 => nearest(scopes, p, wanted),
            _ => None,
        }
    }
}

/// The nearest match is the first scope of the chain that meets `wanted`: it is on the chain,
/// it meets `wanted`, and no scope before it on the chain does. Without a nearest match no
/// scope of the chain meets `wanted`.
pub proof fn lemma_nearest_is_first<T>(
    scopes: Seq<Scope<T>>,
    scope: ScopeId,
    wanted: spec_fn(T) -> bool,
)
    ensures
        forall|k: int|
            0 <= k < ancestry(scopes, scope).len() ==> (#[trigger] ancestry(scopes, scope)[k]).0
                < scopes.len(),
        match nearest(scopes, scope, wanted) {
            Some(site) => exists|k: int|
                {
                    &&& 0 <= k < ancestry(scopes, scope).len()
                    &&& #[trigger] ancestry(scopes, scope)[k] == site
                    &&& wanted(scopes[site.0 as int].item)
                    &&& forall|j: int|
                        0 <= j < k ==> !wanted(
                            scopes[(#[trigger] ancestry(scopes, scope)[j]).0 as int].item,
                        )
                },
            None => forall|k: int|
                0 <= k < ancestry(scopes, scope).len() ==> !wanted(
                    scopes[(#[trigger] ancestry(scopes, scope)[k]).0 as int].item,
                ),
        },
    decreases scope.0,
{
    if scope.0 < scopes.len() {
        let chain = ancestry(scopes, scope);
        match scopes[scope.0 as int].parent {
            Some(p) if p.0 < scope.0 => {
                lemma_nearest_is_first(scopes, p, wanted);
                let rest = ancestry(scopes, p);
                assert(chain == seq![scope] + rest);
                assert(chain[0] == scope);
                assert forall|k: int| 1 <= k < chain.len() implies #[trigger] chain[k] == rest[k
                    - 1] by {}
                if wanted(scopes[scope.0 as int].item) {
                    assert(chain[0] == scope);
                } else {
                    match nearest(scopes, p, wanted) {
                        Some(site) => {
                            let k = choose|k: int|
                                {
                                    &&& 0 <= k < rest.len()
                                    &&& #[trigger] rest[k] == site
                                    &&& wanted(scopes[site.0 as int].item)
                                    &&& forall|j: int|
                                        0 <= j < k ==> !wanted(
                                            scopes[(#[trigger] rest[j]).0 as int].item,
                                        )
                                };
                            assert(chain[k + 1] == site);
                            assert forall|j: int| 0 <= j < k + 1 implies !wanted(
                                scopes[(#[trigger] chain[j]).0 as int].item,
                            ) by {
                                if j > 0 {
                                    assert(chain[j] == rest[j - 1]);
                                }
                            }
                        },
                        None => {
                            assert forall|k: int| 0 <= k < chain.len() implies !wanted(
                                scopes[(#[trigger] chain[k]).0 as int].item,
                            ) by {
                                if k > 0 {
                                    assert(chain[k] == rest[k - 1]);
                                }
                            }
                        },
                    }
                }
            },
            _ => {
                assert(chain == seq![scope]);
                assert(chain[0] == scope);
            },
        }
    }
}

/// The nearest match is a scope of the arena, created no later than the scope that the search
/// starts from, and its table meets `wanted`.
pub proof fn lemma_nearest_within<T>(
    scopes: Seq<Scope<T>>,
    scope: ScopeId,
    wanted: spec_fn(T) -> bool,
)
    ensures
        nearest(scopes, scope, wanted) matches Some(site) ==> site.0 <= scope.0 && site.0
            < scopes.len() && wanted(scopes[site.0 as int].item),
    decreases scope.0,
{
    if scope.0 < scopes.len() && !wanted(scopes[scope.0 as int].item) {
        match scopes[scope.0 as int].parent {
            Some(p) if p.0 < scope.0 => {
                lemma_nearest_within(scopes, p, wanted);
            },
            _ => {},
        }
    }
}

/// The nearest match depends only on the parent links and on which tables meet `wanted`.
pub proof fn lemma_nearest_alike<T>(
    a: Seq<Scope<T>>,
    b: Seq<Scope<T>>,
    scope: ScopeId,
    wanted_a: spec_fn(T) -> bool,
    wanted_b: spec_fn(T) -> bool,
)
    requires
        scope.0 < a.len() ==> scope.0 < b.len(),
        scope.0 < b.len() ==> scope.0 < a.len(),
        forall|i: int|
            0 <= i <= scope.0 && i < a.len() ==> (#[trigger] a[i]).parent == b[i].parent
                && wanted_a(a[i].item) == wanted_b(b[i].item),
    ensures
        nearest(a, scope, wanted_a) == nearest(b, scope, wanted_b),
    decreases scope.0,
{
    if scope.0 < a.len() {
        assert(a[scope.0 as int].parent == b[scope.0 as int].parent);
        match a[scope.0 as int].parent {
            Some(p) if p.0 < scope.0 => {
                lemma_nearest_alike(a, b, p, wanted_a, wanted_b);
            },
            _ => {},
        }
    }
}

/// Whether `after` is `before` with one more scope, `top`, that has a table as `T::default()`
/// makes it and `parent` as its parent. No scope of `before` is changed.
pub open spec fn adds_scope<T: Default>(
    before: Seq<Scope<T>>,
    after: Seq<Scope<T>>,
    parent: Option<ScopeId>,
    top: ScopeId,
) -> bool {
    &&& top.0 == before.len()
    &&& after.len() == before.len() + 1
    &&& after.take(before.len() as int) == before
    &&& after[top.0 as int].parent == parent
    &&& call_ensures(T::default, (), after[top.0 as int].item)
}

/// Owner of all scopes. Its view is the sequence of its scopes, in order of creation.
#[derive(Debug, Clone)]
pub struct ScopeArena<T> {
    nodes: Vec<Scope<T>>,
}

impl<T> View for ScopeArena<T> {
    type V = Seq<Scope<T>>;

    closed spec fn view(&self) -> Seq<Scope<T>> {
        self.nodes@
    }
}

impl<T> ScopeArena<T> {
    /// Whether `scope` names a scope of this arena.
    pub open spec fn contains(&self, scope: ScopeId) -> bool {
        scope.0 < self@.len()
    }

    /// The table of a scope.
    pub open spec fn item(&self, scope: ScopeId) -> T {
        self@[scope.0 as int].item
    }

    /// The scope that encloses `scope`, if any.
    pub open spec fn parent(&self, scope: ScopeId) -> Option<ScopeId> {
        self@[scope.0 as int].parent
    }

    /// Every scope was created after the scope that encloses it. Hence the parent links form
    /// a forest: no chain of them is endless or comes back to where it began.
    pub open spec fn wf(&self) -> bool {
        forest(self@)
    }

    /// The chain of scopes from `scope` outward to its root, innermost first.
    pub open spec fn ancestry(&self, scope: ScopeId) -> Seq<ScopeId> {
        ancestry(self@, scope)
    }

    /// An arena without scopes.
    pub fn new() -> (arena: ScopeArena<T>)
        ensures
            arena@ == Seq::<Scope<T>>::empty(),
            arena.wf(),
    {
        ScopeArena { nodes: Vec::new() }
    }

    /// Number of scopes created so far.
    pub fn len(&self) -> (n: usize)
        ensures
            n == self@.len(),
    {
        self.nodes.len()
    }

    /// Read access to the table of a scope.
    pub fn table(&self, scope: ScopeId) -> (item: &T)
        requires
            self.contains(scope),
        ensures
            *item == self.item(scope),
    {
        &self.nodes[scope.0].item
    }
}

impl<T: Default> ScopeArena<T> {
    fn new_with_parent(&mut self, parent: Option<ScopeId>) -> (scope: ScopeId)
        requires
            old(self).wf(),
            parent matches Some(p) ==> old(self).contains(p),
        ensures
            final(self).wf(),
            adds_scope(old(self)@, final(self)@, parent, scope),
    {
        let scope = ScopeId(self.nodes.len());
        self.nodes.push(Scope { item: T::default(), parent });
        assert(self@.take(old(self)@.len() as int) =~= old(self)@);
        scope
    }

    /// Creates a root scope: an empty table and no parent.
    pub fn root(&mut self) -> (scope: ScopeId)
        requires
            old(self).wf(),
        ensures
            final(self).wf(),
            adds_scope(old(self)@, final(self)@, None, scope),
    {
        self.new_with_parent(None)
    }
}

/// General stack trait for an object which does its own stack management.
pub trait Stack {
    /// Whether `scope` is a frame of this stack, and the stack is sound.
    spec fn live(&self, scope: ScopeId) -> bool;

    /// The frame below `scope`, if any.
    spec fn below(&self, scope: ScopeId) -> Option<ScopeId>;

    /// Creates a new frame on top of `current` and returns it. No frame that was live changes.
    fn push(&mut self, current: ScopeId) -> (top: ScopeId)
        requires
            old(self).live(current),
        ensures
            !old(self).live(top),
            final(self).live(top),
            final(self).below(top) == Some(current),
            forall|s: ScopeId| #[trigger]
                old(self).live(s) ==> final(self).live(s) && final(self).below(s) == old(self).below(
                    s,
                ),
    ;

    /// Returns the frame below `current`, if there is one. Nothing is changed or released.
    fn pop(&self, current: ScopeId) -> (next: Option<ScopeId>)
        requires
            self.live(current),
        ensures
            next == self.below(current),
            next matches Some(s) ==> self.live(s),
    ;
}

impl<T: Default> Stack for ScopeArena<T> {
    open spec fn live(&self, scope: ScopeId) -> bool {
        self.wf() && self.contains(scope)
    }

    open spec fn below(&self, scope: ScopeId) -> Option<ScopeId> {
        self.parent(scope)
    }

    fn push(&mut self, current: ScopeId) -> (top: ScopeId)
        ensures
            adds_scope(old(self)@, final(self)@, Some(current), top),
    {
        let top = self.new_with_parent(Some(current));
        assert forall|s: ScopeId| #[trigger] old(self).live(s) implies self.live(s) && self.below(
            s,
        ) == old(self).below(s) by {
            assert(self@.take(old(self)@.len() as int)[s.0 as int] == self@[s.0 as int]);
        }
        top
    }

    fn pop(&self, current: ScopeId) -> (next: Option<ScopeId>) {
        self.nodes[current.0].parent
    }
}

/// Trait for any object which has an associated scope.
///
/// The object only records which scope it belongs to; the arena owns the scope.
pub trait Scoped {
    /// The scope of this object, if it has one.
    fn scope(&self) -> Option<ScopeId>;

    /// Sets the scope, or `None` if no scope should exist.
    fn set_scope(&mut self, scope: Option<ScopeId>);
}

} // verus!
