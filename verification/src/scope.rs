//! Scoped context registries and scope hook factories.
//!
//! A reusable component library registers any number of independent contexts
//! under one named scope through a [`ContextCreator`]; each registration is
//! assigned the next integer index, in call order, and yields a
//! provider/consumer pair tagged with the scope name and that index. A scope
//! hook, reading the registry at invocation time, maps an existing (possibly
//! absent) scope mapping to a new one-entry mapping holding the scope's
//! currently-registered context list; [`compose_context_scopes`] merges the
//! hooks of several libraries into one.
//!
//! Both mappings involved keep their entries in insertion order with unique
//! keys, so every derivation and merge here is deterministic.

use core::marker::PhantomData;
use vstd::prelude::*;

use crate::ambient::AmbientStore;
use crate::context::{lookup_or_default, missing_context_message, missing_context_message_model};
use crate::values::{clone_is_exact, duplicate, duplicate_option};

verus! {

/// One slot of a scope's ordered context list: the default registered for
/// that slot, or a placeholder when the context was registered without one.
#[derive(Debug, Clone, PartialEq, Eq)]
pub enum ContextHandle<T> {
    Placeholder,
    Value(T),
}

/// Relates a handle to a duplicate of it: placeholders stay placeholders and
/// carried values are related by `T`'s `Clone`.
pub open spec fn handle_cloned<T: Clone>(a: ContextHandle<T>, b: ContextHandle<T>) -> bool {
    match (a, b) {
        (ContextHandle::Placeholder, ContextHandle::Placeholder) => true,
        (ContextHandle::Value(x), ContextHandle::Value(y)) => cloned::<T>(x, y),
        _ => false,
    }
}

/// Duplicates a context list slot by slot.
pub fn duplicate_handles<T: Clone>(handles: &Vec<ContextHandle<T>>) -> (r: Vec<ContextHandle<T>>)
    ensures
        r@.len() == handles@.len(),
        forall|i: int| 0 <= i < handles@.len() ==> handle_cloned(handles@[i], #[trigger] r@[i]),
        clone_is_exact::<T>() ==> r@ == handles@,
{
    let mut r: Vec<ContextHandle<T>> = Vec::new();
    let mut i: usize = 0;
    while i < handles.len()
        invariant
            i <= handles@.len(),
            r@.len() == i,
            forall|j: int| 0 <= j < i ==> handle_cloned(handles@[j], #[trigger] r@[j]),
            clone_is_exact::<T>() ==> r@ == handles@.subrange(0, i as int),
        decreases handles@.len() - i,
    {
        let h = match &handles[i] {
            ContextHandle::Placeholder => ContextHandle::Placeholder,
            ContextHandle::Value(v) => ContextHandle::Value(duplicate(v)),
        };
        r.push(h);
        proof {
            if clone_is_exact::<T>() {
                assert(r@ =~= handles@.subrange(0, i + 1));
            }
        }
        i = i + 1;
    }
    proof {
        if clone_is_exact::<T>() {
            assert(handles@.subrange(0, handles@.len() as int) =~= handles@);
        }
    }
    r
}

/// Whether an association sequence has pairwise distinct keys.
pub open spec fn assoc_wf<V>(s: Seq<(Seq<char>, V)>) -> bool {
    forall|i: int, j: int| 0 <= i < j < s.len() ==> s[i].0 != s[j].0
}

/// Whether an association sequence holds the key `k`.
pub open spec fn assoc_contains_key<V>(s: Seq<(Seq<char>, V)>, k: Seq<char>) -> bool {
    exists|i: int| 0 <= i < s.len() && s[i].0 == k
}

/// The position of key `k`; meaningful under `assoc_wf` when the key is held.
pub open spec fn assoc_key_index<V>(s: Seq<(Seq<char>, V)>, k: Seq<char>) -> int {
    choose|i: int| 0 <= i < s.len() && s[i].0 == k
}

/// The value held at key `k`; meaningful under `assoc_wf` when the key is held.
pub open spec fn assoc_value<V>(s: Seq<(Seq<char>, V)>, k: Seq<char>) -> V {
    s[assoc_key_index(s, k)].1
}

/// Inserting overwrites the value in place when the key is already held and
/// appends a fresh entry otherwise.
pub open spec fn assoc_insert<V>(s: Seq<(Seq<char>, V)>, k: Seq<char>, v: V) -> Seq<
    (Seq<char>, V),
> {
    if assoc_contains_key(s, k) {
        s.update(assoc_key_index(s, k), (k, v))
    } else {
        s.push((k, v))
    }
}

/// Folds `other` into `acc` entry by entry, in order: a colliding key keeps
/// its position in `acc` but takes `other`'s value — last write wins.
pub open spec fn assoc_merge<V>(acc: Seq<(Seq<char>, V)>, other: Seq<(Seq<char>, V)>) -> Seq<
    (Seq<char>, V),
>
    decreases other.len(),
{
    if other.len() == 0 {
        acc
    } else {
        assoc_merge(assoc_insert(acc, other[0].0, other[0].1), other.subrange(1, other.len() as int))
    }
}

/// An insertion-ordered mapping from scope name to that scope's ordered
/// context list, with unique names.
pub struct ScopeMap<T> {
    entries: Vec<(String, Vec<ContextHandle<T>>)>,
}

impl<T> View for ScopeMap<T> {
    type V = Seq<(Seq<char>, Seq<ContextHandle<T>>)>;

    closed spec fn view(&self) -> Self::V {
        self.entries@.map_values(|e: (String, Vec<ContextHandle<T>>)| (e.0@, e.1@))
    }
}

/// A scope mapping as handed between hooks: absent until some hook first
/// builds one.
pub type Scope<T> = Option<ScopeMap<T>>;

/// The mapping a scope holds, seen through its view; `None` stays `None`.
pub open spec fn scope_model<T>(s: Option<ScopeMap<T>>) -> Option<
    Seq<(Seq<char>, Seq<ContextHandle<T>>)>,
> {
    match s {
        Some(m) => Some(m@),
        None => None,
    }
}

impl<T> ScopeMap<T> {
    /// Unique scope names.
    pub open spec fn wf(&self) -> bool {
        assoc_wf(self@)
    }

    /// An empty scope mapping.
    pub fn new() -> (r: Self)
        ensures
            r@ == Seq::<(Seq<char>, Seq<ContextHandle<T>>)>::empty(),
            r.wf(),
    {
        let r = ScopeMap { entries: Vec::new() };
        proof {
            assert(r@ =~= Seq::<(Seq<char>, Seq<ContextHandle<T>>)>::empty());
        }
        r
    }

    /// How many scope names are held.
    pub fn len(&self) -> (r: usize)
        ensures
            r == self@.len(),
    {
        self.entries.len()
    }

    /// The scope name at position `i`, in insertion order.
    pub fn name_at(&self, i: usize) -> (r: &String)
        requires
            i < self@.len(),
        ensures
            r@ == self@[i as int].0,
    {
        &self.entries[i].0
    }

    /// The context list at position `i`, in insertion order.
    pub fn contexts_at(&self, i: usize) -> (r: &Vec<ContextHandle<T>>)
        requires
            i < self@.len(),
        ensures
            r@ == self@[i as int].1,
    {
        &self.entries[i].1
    }

    /// Binds `name` to `contexts`, overwriting in place when the name is
    /// already held and appending otherwise.
    pub fn insert(&mut self, name: String, contexts: Vec<ContextHandle<T>>)
        requires
            old(self).wf(),
        ensures
            final(self)@ == assoc_insert(old(self)@, name@, contexts@),
            final(self).wf(),
    {
        let mut i: usize = 0;
        while i < self.entries.len()
            invariant
                self@ == old(self)@,
                old(self).wf(),
                i <= old(self)@.len(),
                self.entries@.len() == old(self)@.len(),
                forall|j: int| 0 <= j < i ==> old(self)@[j].0 != name@,
            decreases old(self)@.len() - i,
        {
            if self.entries[i].0 == name {
                proof {
                    assert(old(self)@[i as int].0 == self.entries@[i as int].0@);
                }
                self.entries[i] = (name, contexts);
                proof {
                    assert(old(self)@[i as int].0 == name@);
                    assert(assoc_contains_key(old(self)@, name@));
                    let w = assoc_key_index(old(self)@, name@);
                    assert(0 <= w < old(self)@.len() && old(self)@[w].0 == name@);
                    assert(w == i) by {
                        if w < i {
                            assert(old(self)@[w].0 != name@);
                        }
                        if i < w {
                            assert(old(self)@[i as int].0 != old(self)@[w].0);
                        }
                    };
                    assert(self@ =~= old(self)@.update(i as int, (name@, contexts@)));
                    assert(self@ =~= assoc_insert(old(self)@, name@, contexts@));
                    assert(self@ == assoc_insert(old(self)@, name@, contexts@));
                    assert forall|p: int, q: int|
                        0 <= p < q < self@.len() implies self@[p].0 != self@[q].0 by {
                        assert(old(self)@[p].0 != old(self)@[q].0);
                    };
                }
                return ;
            }
            proof {
                assert(old(self)@[i as int].0 == self.entries@[i as int].0@);
            }
            i = i + 1;
        }
        self.entries.push((name, contexts));
        proof {
            assert(!assoc_contains_key(old(self)@, name@));
            assert(self@ =~= old(self)@.push((name@, contexts@)));
            assert forall|p: int, q: int|
                0 <= p < q < self@.len() implies self@[p].0 != self@[q].0 by {
                if q < old(self)@.len() {
                    assert(old(self)@[p].0 != old(self)@[q].0);
                } else {
                    assert(self@[q].0 == name@);
                    assert(old(self)@[p].0 != name@);
                }
            };
        }
    }

    /// The context list bound to `name`, if that scope name is held.
    pub fn get(&self, name: &String) -> (r: Option<&Vec<ContextHandle<T>>>)
        requires
            self.wf(),
        ensures
            r is Some <==> assoc_contains_key(self@, name@),
            r matches Some(v) ==> v@ == assoc_value(self@, name@),
    {
        let mut i: usize = 0;
        while i < self.entries.len()
            invariant
                self.wf(),
                i <= self@.len(),
                self.entries@.len() == self@.len(),
                forall|j: int| 0 <= j < i ==> self@[j].0 != name@,
            decreases self@.len() - i,
        {
            if self.entries[i].0 == *name {
                proof {
                    assert(self@[i as int] == (self.entries@[i as int].0@, self.entries@[i as int].1@));
                    assert(self@[i as int].0 == name@);
                    assert(assoc_contains_key(self@, name@));
                    let w = assoc_key_index(self@, name@);
                    assert(0 <= w < self@.len() && self@[w].0 == name@);
                    assert(w == i) by {
                        if w < i {
                            assert(self@[w].0 != name@);
                        }
                        if i < w {
                            assert(self@[i as int].0 != self@[w].0);
                        }
                    };
                    assert(self@[i as int].1 == self.entries@[i as int].1@);
                }
                return Some(&self.entries[i].1);
            }
            proof {
                assert(self@[i as int].0 == self.entries@[i as int].0@);
            }
            i = i + 1;
        }
        None
    }
}

impl<T: Clone> ScopeMap<T> {
    /// Duplicates the mapping; names are kept exactly, carried defaults are
    /// duplicated through `T`'s `Clone`.
    pub fn duplicate(&self) -> (r: Self)
        ensures
            r@.len() == self@.len(),
            forall|i: int| 0 <= i < self@.len() ==> (#[trigger] r@[i]).0 == self@[i].0,
            clone_is_exact::<T>() ==> r@ == self@,
            self.wf() ==> r.wf(),
    {
        let mut entries: Vec<(String, Vec<ContextHandle<T>>)> = Vec::new();
        let mut i: usize = 0;
        while i < self.entries.len()
            invariant
                i <= self@.len(),
                self.entries@.len() == self@.len(),
                entries@.len() == i,
                forall|j: int| 0 <= j < i ==> (#[trigger] entries@[j]).0@ == self@[j].0,
                clone_is_exact::<T>() ==> entries@.map_values(
                    |e: (String, Vec<ContextHandle<T>>)| (e.0@, e.1@),
                ) =~= self@.subrange(0, i as int),
            decreases self@.len() - i,
        {
            let name = self.entries[i].0.clone();
            let contexts = duplicate_handles(&self.entries[i].1);
            entries.push((name, contexts));
            i = i + 1;
        }
        let r = ScopeMap { entries };
        proof {
            if clone_is_exact::<T>() {
                assert(r@ =~= self@);
            }
        }
        r
    }
}

/// Duplicates a scope: an absent scope stays absent.
pub fn duplicate_scope<T: Clone>(s: &Scope<T>) -> (r: Scope<T>)
    ensures
        r is Some <==> *s is Some,
        *s matches Some(m) ==> (r matches Some(m2) && m2@.len() == m@.len() && (m.wf()
            ==> m2.wf())),
        clone_is_exact::<T>() ==> scope_model(r) == scope_model(*s),
{
    match s {
        Some(m) => Some(m.duplicate()),
        None => None,
    }
}

/// The output of one scope hook application: an insertion-ordered mapping
/// from output key to scope, with unique keys.
pub struct ScopeProps<T> {
    entries: Vec<(String, Scope<T>)>,
}

impl<T> View for ScopeProps<T> {
    type V = Seq<(Seq<char>, Option<Seq<(Seq<char>, Seq<ContextHandle<T>>)>>)>;

    closed spec fn view(&self) -> Self::V {
        self.entries@.map_values(|e: (String, Scope<T>)| (e.0@, scope_model(e.1)))
    }
}

impl<T> ScopeProps<T> {
    /// Unique output keys.
    pub open spec fn wf(&self) -> bool {
        assoc_wf(self@)
    }

    /// An empty mapping.
    pub fn new() -> (r: Self)
        ensures
            r@ == Seq::<(Seq<char>, Option<Seq<(Seq<char>, Seq<ContextHandle<T>>)>>)>::empty(),
            r.wf(),
    {
        let r = ScopeProps { entries: Vec::new() };
        proof {
            assert(r@ =~= Seq::<
                (Seq<char>, Option<Seq<(Seq<char>, Seq<ContextHandle<T>>)>>),
            >::empty());
        }
        r
    }

    /// How many entries are held.
    pub fn len(&self) -> (r: usize)
        ensures
            r == self@.len(),
    {
        self.entries.len()
    }

    /// The output key at position `i`, in insertion order.
    pub fn key_at(&self, i: usize) -> (r: &String)
        requires
            i < self@.len(),
        ensures
            r@ == self@[i as int].0,
    {
        &self.entries[i].0
    }

    /// The scope at position `i`, in insertion order.
    pub fn scope_at(&self, i: usize) -> (r: &Scope<T>)
        requires
            i < self@.len(),
        ensures
            scope_model(*r) == self@[i as int].1,
    {
        &self.entries[i].1
    }

    /// Binds `key` to `scope`, overwriting in place when the key is already
    /// held and appending otherwise.
    pub fn insert(&mut self, key: String, scope: Scope<T>)
        requires
            old(self).wf(),
        ensures
            final(self)@ == assoc_insert(old(self)@, key@, scope_model(scope)),
            final(self).wf(),
    {
        let mut i: usize = 0;
        while i < self.entries.len()
            invariant
                self@ == old(self)@,
                old(self).wf(),
                i <= old(self)@.len(),
                self.entries@.len() == old(self)@.len(),
                forall|j: int| 0 <= j < i ==> old(self)@[j].0 != key@,
            decreases old(self)@.len() - i,
        {
            if self.entries[i].0 == key {
                proof {
                    assert(old(self)@[i as int].0 == self.entries@[i as int].0@);
                }
                self.entries[i] = (key, scope);
                proof {
                    assert(old(self)@[i as int].0 == key@);
                    assert(assoc_contains_key(old(self)@, key@));
                    let w = assoc_key_index(old(self)@, key@);
                    assert(0 <= w < old(self)@.len() && old(self)@[w].0 == key@);
                    assert(w == i) by {
                        if w < i {
                            assert(old(self)@[w].0 != key@);
                        }
                        if i < w {
                            assert(old(self)@[i as int].0 != old(self)@[w].0);
                        }
                    };
                    assert(self@ =~= old(self)@.update(i as int, (key@, scope_model(scope))));
                    assert(self@ == assoc_insert(old(self)@, key@, scope_model(scope)));
                    assert forall|p: int, q: int|
                        0 <= p < q < self@.len() implies self@[p].0 != self@[q].0 by {
                        assert(old(self)@[p].0 != old(self)@[q].0);
                    };
                }
                return ;
            }
            proof {
                assert(old(self)@[i as int].0 == self.entries@[i as int].0@);
            }
            i = i + 1;
        }
        self.entries.push((key, scope));
        proof {
            assert(!assoc_contains_key(old(self)@, key@));
            assert(self@ =~= old(self)@.push((key@, scope_model(scope))));
            assert forall|p: int, q: int|
                0 <= p < q < self@.len() implies self@[p].0 != self@[q].0 by {
                if q < old(self)@.len() {
                    assert(old(self)@[p].0 != old(self)@[q].0);
                } else {
                    assert(self@[q].0 == key@);
                    assert(old(self)@[p].0 != key@);
                }
            };
        }
    }

    /// The scope bound to `key`, if that key is held.
    pub fn get(&self, key: &String) -> (r: Option<&Scope<T>>)
        requires
            self.wf(),
        ensures
            r is Some <==> assoc_contains_key(self@, key@),
            r matches Some(v) ==> scope_model(*v) == assoc_value(self@, key@),
    {
        let mut i: usize = 0;
        while i < self.entries.len()
            invariant
                self.wf(),
                i <= self@.len(),
                self.entries@.len() == self@.len(),
                forall|j: int| 0 <= j < i ==> self@[j].0 != key@,
            decreases self@.len() - i,
        {
            if self.entries[i].0 == *key {
                proof {
                    assert(self@[i as int] == (
                        self.entries@[i as int].0@,
                        scope_model(self.entries@[i as int].1),
                    ));
                    assert(self@[i as int].0 == key@);
                    assert(assoc_contains_key(self@, key@));
                    let w = assoc_key_index(self@, key@);
                    assert(0 <= w < self@.len() && self@[w].0 == key@);
                    assert(w == i) by {
                        if w < i {
                            assert(self@[w].0 != key@);
                        }
                        if i < w {
                            assert(self@[i as int].0 != self@[w].0);
                        }
                    };
                }
                return Some(&self.entries[i].1);
            }
            proof {
                assert(self@[i as int].0 == self.entries@[i as int].0@);
            }
            i = i + 1;
        }
        None
    }

    /// Folds `other` into `self` entry by entry, in order: a colliding key
    /// keeps its position but takes `other`'s value — last write wins.
    pub fn merge(&mut self, other: ScopeProps<T>)
        requires
            old(self).wf(),
        ensures
            final(self)@ == assoc_merge(old(self)@, other@),
            final(self).wf(),
    {
        let mut rest = other;
        while rest.entries.len() > 0
            invariant
                self.wf(),
                assoc_merge(self@, rest@) == assoc_merge(old(self)@, other@),
            decreases rest@.len(),
        {
            let ghost rest_pre = rest@;
            let e = rest.entries.remove(0);
            proof {
                assert(rest@ =~= rest_pre.subrange(1, rest_pre.len() as int));
                assert(rest_pre[0] == (e.0@, scope_model(e.1)));
            }
            self.insert(e.0, e.1);
        }
        proof {
            assert(rest@.len() == 0);
        }
    }
}

/// How defaults registered in call order appear in a scope's context list:
/// the default itself, or a placeholder where none was given.
pub open spec fn handles_of_defaults<T>(defaults: Seq<Option<T>>) -> Seq<ContextHandle<T>> {
    defaults.map_values(
        |d: Option<T>|
            match d {
                Some(v) => ContextHandle::Value(v),
                None => ContextHandle::Placeholder,
            },
    )
}

/// Whether a scope's mapping, when present, has unique names.
pub open spec fn scope_wf<T>(s: Scope<T>) -> bool {
    match s {
        Some(m) => m.wf(),
        None => true,
    }
}

/// A provider bound to one slot of a named scope: it injects the raw value —
/// deliberately without the basic provider's memoization — and the host
/// renders its children beneath it unchanged.
pub struct ContextProvider<T> {
    scope_name: String,
    index: usize,
    marker: PhantomData<T>,
}

impl<T> ContextProvider<T> {
    /// The name of the scope this provider was registered in.
    pub closed spec fn spec_scope_name(&self) -> Seq<char> {
        self.scope_name@
    }

    /// The slot this provider was registered at, in call order.
    pub closed spec fn spec_index(&self) -> usize {
        self.index
    }

    /// The name of the scope this provider was registered in.
    pub fn scope_name(&self) -> (r: &String)
        ensures
            r@ == self.spec_scope_name(),
    {
        &self.scope_name
    }

    /// The slot this provider was registered at, in call order.
    pub fn index(&self) -> (r: usize)
        ensures
            r == self.spec_index(),
    {
        self.index
    }

    /// Injects `value` into the subtree's ambient store, replacing any value
    /// an enclosing provider injected.
    pub fn render(&self, value: T, store: &mut AmbientStore<T>)
        ensures
            final(store)@ == Some(value),
    {
        store.provide(value);
    }
}

/// A consumer bound to one slot of a named scope: the same
/// lookup-or-default-or-abort reading as the basic consumer.
pub struct ContextConsumer<T> {
    scope_name: String,
    index: usize,
    default_context: Option<T>,
    root_name: String,
}

impl<T: Clone> ContextConsumer<T> {
    /// The name of the scope this consumer was registered in.
    pub closed spec fn spec_scope_name(&self) -> Seq<char> {
        self.scope_name@
    }

    /// The slot this consumer was registered at, in call order.
    pub closed spec fn spec_index(&self) -> usize {
        self.index
    }

    /// The default registered for this consumer's slot, if any.
    pub closed spec fn spec_default(&self) -> Option<T> {
        self.default_context
    }

    /// The root provider name recorded for diagnostics.
    pub closed spec fn spec_root_name(&self) -> Seq<char> {
        self.root_name@
    }

    /// The slot this consumer was registered at, in call order.
    pub fn index(&self) -> (r: usize)
        ensures
            r == self.spec_index(),
    {
        self.index
    }

    /// Reads the nearest injected value, falling back to the registered
    /// default. Calling a consumer with neither an enclosing provider nor a
    /// default is a usage error and is excluded here; `try_consume` reports
    /// it instead.
    pub fn consume(&self, consumer_name: &str, store: &AmbientStore<T>) -> (r: T)
        requires
            store@ is Some || self.spec_default() is Some,
        ensures
            store@ matches Some(v) ==> cloned::<T>(v, r),
            store@ is None ==> (self.spec_default() matches Some(d) ==> cloned::<T>(d, r)),
            clone_is_exact::<T>() ==> r == (if store@ is Some {
                store@
            } else {
                self.spec_default()
            }).unwrap(),
    {
        match lookup_or_default(store, &self.default_context) {
            Some(v) => v,
            None => unreached(),
        }
    }

    /// Like `consume`, but total: when neither an enclosing provider nor a
    /// default is available it hands back the fatal usage error text instead
    /// of a value.
    pub fn try_consume(&self, consumer_name: &str, store: &AmbientStore<T>) -> (r: Result<
        T,
        String,
    >)
        ensures
            r is Ok <==> (store@ is Some || self.spec_default() is Some),
            store@ matches Some(v) ==> (r matches Ok(c) && cloned::<T>(v, c)),
            store@ is None ==> (self.spec_default() matches Some(d) ==> (r matches Ok(c)
                && cloned::<T>(d, c))),
            clone_is_exact::<T>() && (store@ is Some || self.spec_default() is Some) ==> r
                == Ok::<T, String>((if store@ is Some {
                store@
            } else {
                self.spec_default()
            }).unwrap()),
            r matches Err(m) ==> m@ == missing_context_message_model(
                consumer_name@,
                self.spec_root_name(),
            ),
    {
        match lookup_or_default(store, &self.default_context) {
            Some(v) => Ok(v),
            None => Err(missing_context_message(consumer_name, &self.root_name)),
        }
    }
}

/// The provider/consumer pair handed back for one registered context.
pub type ContextPair<T> = (ContextProvider<T>, ContextConsumer<T>);

/// The registry of one named scope: it stores each registered context's
/// default (or its absence) at the next free index, in call order.
pub struct ContextCreator<T> {
    scope_name: String,
    contexts: Vec<Option<T>>,
}

impl<T: Clone> ContextCreator<T> {
    /// The name of the scope this registry belongs to.
    pub closed spec fn spec_scope_name(&self) -> Seq<char> {
        self.scope_name@
    }

    /// The defaults registered so far, in call order.
    pub closed spec fn spec_contexts(&self) -> Seq<Option<T>> {
        self.contexts@
    }

    /// The name of the scope this registry belongs to.
    pub fn scope_name(&self) -> (r: &String)
        ensures
            r@ == self.spec_scope_name(),
    {
        &self.scope_name
    }

    /// How many contexts have been registered so far.
    pub fn registered(&self) -> (r: usize)
        ensures
            r == self.spec_contexts().len(),
    {
        self.contexts.len()
    }

    /// Registers one more context under this scope: the next integer index —
    /// equal to the number of earlier registrations, so indices run 0, 1, …
    /// in call order — is allocated, the default (or its absence) is stored
    /// at that index, and a provider/consumer pair tagged with the scope name
    /// and that index is handed back.
    pub fn create(&mut self, root_name: &str, default_context: Option<T>) -> (r: ContextPair<T>)
        ensures
            r.0.spec_scope_name() == old(self).spec_scope_name(),
            r.0.spec_index() == old(self).spec_contexts().len(),
            r.1.spec_scope_name() == old(self).spec_scope_name(),
            r.1.spec_index() == old(self).spec_contexts().len(),
            r.1.spec_default() == default_context,
            r.1.spec_root_name() == root_name@,
            final(self).spec_scope_name() == old(self).spec_scope_name(),
            final(self).spec_contexts().len() == old(self).spec_contexts().len() + 1,
            forall|i: int|
                0 <= i < old(self).spec_contexts().len() ==> final(self).spec_contexts()[i] == old(
                    self,
                ).spec_contexts()[i],
            final(self).spec_contexts().last() is Some <==> default_context is Some,
            default_context matches Some(d) ==> (final(self).spec_contexts().last() matches Some(c)
                && cloned::<T>(d, c)),
            clone_is_exact::<T>() ==> final(self).spec_contexts() == old(self).spec_contexts().push(
                default_context,
            ),
    {
        let index = self.contexts.len();
        let stored = duplicate_option(&default_context);
        self.contexts.push(stored);
        let provider = ContextProvider::<T> {
            scope_name: self.scope_name.clone(),
            index,
            marker: PhantomData,
        };
        let consumer = ContextConsumer::<T> {
            scope_name: self.scope_name.clone(),
            index,
            default_context,
            root_name: root_name.to_owned(),
        };
        proof {
            if clone_is_exact::<T>() {
                assert(self.contexts@ =~= old(self).spec_contexts().push(default_context));
            }
        }
        (provider, consumer)
    }

    /// The scope's current context list: one handle per registered context,
    /// in registration order — the default where one was given, a placeholder
    /// where none was.
    pub fn registered_handles(&self) -> (r: Vec<ContextHandle<T>>)
        ensures
            r@.len() == self.spec_contexts().len(),
            forall|i: int|
                0 <= i < self.spec_contexts().len() ==> handle_cloned(
                    handles_of_defaults(self.spec_contexts())[i],
                    #[trigger] r@[i],
                ),
            clone_is_exact::<T>() ==> r@ == handles_of_defaults(self.spec_contexts()),
    {
        let ghost model = handles_of_defaults(self.spec_contexts());
        let mut r: Vec<ContextHandle<T>> = Vec::new();
        let mut i: usize = 0;
        while i < self.contexts.len()
            invariant
                i <= self.contexts@.len(),
                model == handles_of_defaults(self.contexts@),
                model.len() == self.contexts@.len(),
                r@.len() == i,
                forall|j: int| 0 <= j < i ==> handle_cloned(model[j], #[trigger] r@[j]),
                clone_is_exact::<T>() ==> r@ == model.subrange(0, i as int),
            decreases self.contexts@.len() - i,
        {
            let h = match &self.contexts[i] {
                Some(d) => ContextHandle::Value(duplicate(d)),
                None => ContextHandle::Placeholder,
            };
            r.push(h);
            proof {
                if clone_is_exact::<T>() {
                    assert(r@ =~= model.subrange(0, i + 1));
                }
            }
            i = i + 1;
        }
        proof {
            if clone_is_exact::<T>() {
                assert(model.subrange(0, model.len() as int) =~= model);
            }
        }
        r
    }

    /// Seals the context list registered so far into a registry-independent
    /// factory — the form a library hands to dependents for composition.
    pub fn hook_factory(&self) -> (r: ScopeHookFactory<T>)
        ensures
            r matches ScopeHookFactory::Sealed { scope_name: n, handles: h } && n@
                == self.spec_scope_name() && h@.len() == self.spec_contexts().len() && (
            clone_is_exact::<T>() ==> h@ == handles_of_defaults(self.spec_contexts())),
            is_sealed(r),
    {
        ScopeHookFactory::Sealed {
            scope_name: self.scope_name.clone(),
            handles: self.registered_handles(),
        }
    }
}

/// A scope hook factory: invoked once per render, it yields the scope hook
/// that carries its scope's context list into an existing scope mapping. A
/// base factory holds no list of its own: its hook reads the scope's registry
/// at invocation time, so every registration made up to that moment is
/// visible. A sealed factory carries a fixed list taken from a registry when
/// it was sealed. A composed factory folds the outputs of several factories'
/// hooks together.
pub enum ScopeHookFactory<T> {
    Base { scope_name: String },
    Sealed { scope_name: String, handles: Vec<ContextHandle<T>> },
    Composed { parts: Vec<ScopeHookFactory<T>> },
}

/// Whether the factory reads no registry at hook time: it holds sealed
/// context lists only.
pub open spec fn is_sealed<T>(f: ScopeHookFactory<T>) -> bool
    decreases f,
{
    match f {
        ScopeHookFactory::Base { .. } => false,
        ScopeHookFactory::Sealed { .. } => true,
        ScopeHookFactory::Composed { parts } => forall|i: int|
            0 <= i < parts@.len() ==> is_sealed(#[trigger] parts@[i]),
    }
}

/// Whether every registry-reading node of the factory names `name`: the
/// condition under which hooking it with that scope's registry is meaningful.
pub open spec fn reads_registry_named<T>(f: ScopeHookFactory<T>, name: Seq<char>) -> bool
    decreases f,
{
    match f {
        ScopeHookFactory::Base { scope_name } => scope_name@ == name,
        ScopeHookFactory::Sealed { .. } => true,
        ScopeHookFactory::Composed { parts } => forall|i: int|
            0 <= i < parts@.len() ==> reads_registry_named(#[trigger] parts@[i], name),
    }
}

/// Law: a sealed factory reads no registry, so hooking it is meaningful with
/// any scope's registry supplied.
pub proof fn lemma_sealed_reads_any_registry<T>(f: ScopeHookFactory<T>, name: Seq<char>)
    requires
        is_sealed(f),
    ensures
        reads_registry_named(f, name),
    decreases f,
{
    match f {
        ScopeHookFactory::Composed { parts } => {
            assert forall|i: int|
                0 <= i < parts@.len() implies reads_registry_named(
                #[trigger] parts@[i],
                name,
            ) by {
                lemma_sealed_reads_any_registry(parts@[i], name);
            }
        },
        _ => {},
    }
}

/// What one scope's hook hands back: under the output key `"__scope"`
/// followed by the scope name, the input mapping (an empty one where the
/// scope was absent) with that scope's context list bound to its name.
pub open spec fn base_hook_model<T>(
    scope_name: Seq<char>,
    handles: Seq<ContextHandle<T>>,
    scope: Option<Seq<(Seq<char>, Seq<ContextHandle<T>>)>>,
) -> Seq<(Seq<char>, Option<Seq<(Seq<char>, Seq<ContextHandle<T>>)>>)> {
    let base = match scope {
        Some(m) => m,
        None => Seq::empty(),
    };
    seq![("__scope"@ + scope_name, Some(assoc_insert(base, scope_name, handles)))]
}

/// What a factory's hook hands back for a given input scope, with `reg` the
/// defaults held by the registry supplied at hook time. A base factory's
/// list is derived from `reg`; a sealed factory's list is its own. A
/// composed factory applies every part's hook to the same input, folds the
/// outputs together in part order — later parts overwrite colliding keys —
/// and then keeps only the fold's first entry, re-keyed under
/// `"__scopebaseScope"`: with several parts, only one part's scope stays
/// addressable.
pub open spec fn hook_model<T>(
    f: ScopeHookFactory<T>,
    reg: Seq<Option<T>>,
    scope: Option<Seq<(Seq<char>, Seq<ContextHandle<T>>)>>,
) -> Seq<(Seq<char>, Option<Seq<(Seq<char>, Seq<ContextHandle<T>>)>>)>
    decreases f,
{
    match f {
        ScopeHookFactory::Base { scope_name } => base_hook_model(
            scope_name@,
            handles_of_defaults(reg),
            scope,
        ),
        ScopeHookFactory::Sealed { scope_name, handles } => base_hook_model(
            scope_name@,
            handles@,
            scope,
        ),
        ScopeHookFactory::Composed { parts } => {
            let folded = fold_hooks_model(parts@, reg, scope, Seq::empty());
            if folded.len() > 0 {
                seq![("__scopebaseScope"@, folded[0].1)]
            } else {
                Seq::empty()
            }
        },
    }
}

/// Folds the outputs of `parts`' hooks, applied to one shared input scope
/// and one shared registry, into `acc`, in part order.
pub open spec fn fold_hooks_model<T>(
    parts: Seq<ScopeHookFactory<T>>,
    reg: Seq<Option<T>>,
    scope: Option<Seq<(Seq<char>, Seq<ContextHandle<T>>)>>,
    acc: Seq<(Seq<char>, Option<Seq<(Seq<char>, Seq<ContextHandle<T>>)>>)>,
) -> Seq<(Seq<char>, Option<Seq<(Seq<char>, Seq<ContextHandle<T>>)>>)>
    decreases parts,
{
    if parts.len() == 0 {
        acc
    } else {
        fold_hooks_model(
            parts.subrange(1, parts.len() as int),
            reg,
            scope,
            assoc_merge(acc, hook_model(parts[0], reg, scope)),
        )
    }
}

impl<T: Clone + PartialEq> ScopeHookFactory<T> {
    /// Invokes the factory and applies the scope hook it yields to `scope`.
    /// `registry` is the hooked scope's registry, read here — at invocation
    /// time — so the context list reflects every registration made so far;
    /// sealed parts ignore it.
    pub fn hook(&self, registry: &ContextCreator<T>, scope: &Scope<T>) -> (r: ScopeProps<T>)
        requires
            scope_wf(*scope),
            reads_registry_named(*self, registry.spec_scope_name()),
        ensures
            r.wf(),
            clone_is_exact::<T>() ==> r@ == hook_model(
                *self,
                registry.spec_contexts(),
                scope_model(*scope),
            ),
        decreases self,
    {
        match self {
            ScopeHookFactory::Base { scope_name } => {
                let mut new_scope: ScopeMap<T> = match duplicate_scope(scope) {
                    Some(m) => m,
                    None => ScopeMap::new(),
                };
                new_scope.insert(scope_name.clone(), registry.registered_handles());
                let mut key = String::from_str("__scope");
                key.append(scope_name.as_str());
                let mut props = ScopeProps::new();
                props.insert(key, Some(new_scope));
                proof {
                    if clone_is_exact::<T>() {
                        assert(props@ =~= hook_model(
                            *self,
                            registry.spec_contexts(),
                            scope_model(*scope),
                        ));
                    }
                }
                props
            },
            ScopeHookFactory::Sealed { scope_name, handles } => {
                let mut new_scope: ScopeMap<T> = match duplicate_scope(scope) {
                    Some(m) => m,
                    None => ScopeMap::new(),
                };
                new_scope.insert(scope_name.clone(), duplicate_handles(handles));
                let mut key = String::from_str("__scope");
                key.append(scope_name.as_str());
                let mut props = ScopeProps::new();
                props.insert(key, Some(new_scope));
                proof {
                    if clone_is_exact::<T>() {
                        assert(props@ =~= hook_model(
                            *self,
                            registry.spec_contexts(),
                            scope_model(*scope),
                        ));
                    }
                }
                props
            },
            ScopeHookFactory::Composed { parts } => {
                proof {
                    assert(decreases_to!(*self => *parts));
                }
                let mut folded = collect_scope_props(parts, registry, scope);
                let ghost folded_pre = folded@;
                if folded.len() > 0 {
                    let first = folded.entries.remove(0);
                    let mut props = ScopeProps::new();
                    props.insert(String::from_str("__scopebaseScope"), first.1);
                    proof {
                        assert(folded_pre[0] == (first.0@, scope_model(first.1)));
                        if clone_is_exact::<T>() {
                            assert(props@ =~= hook_model(
                                *self,
                                registry.spec_contexts(),
                                scope_model(*scope),
                            ));
                        }
                    }
                    props
                } else {
                    let props = ScopeProps::<T>::new();
                    proof {
                        if clone_is_exact::<T>() {
                            assert(props@ =~= hook_model(
                                *self,
                                registry.spec_contexts(),
                                scope_model(*scope),
                            ));
                        }
                    }
                    props
                }
            },
        }
    }
}

/// Applies every factory's hook to the same input scope and the same
/// registry, folding the outputs together in order: on a key collision the
/// later factory's entry overwrites the earlier one's — last write wins, so
/// a library author who reuses another library's scope name silently loses
/// its entry.
pub fn collect_scope_props<T: Clone + PartialEq>(
    parts: &Vec<ScopeHookFactory<T>>,
    registry: &ContextCreator<T>,
    scope: &Scope<T>,
) -> (r: ScopeProps<T>)
    requires
        scope_wf(*scope),
        forall|i: int|
            0 <= i < parts@.len() ==> reads_registry_named(
                #[trigger] parts@[i],
                registry.spec_scope_name(),
            ),
    ensures
        r.wf(),
        clone_is_exact::<T>() ==> r@ == fold_hooks_model(
            parts@,
            registry.spec_contexts(),
            scope_model(*scope),
            Seq::empty(),
        ),
    decreases *parts,
{
    let mut acc = ScopeProps::<T>::new();
    let mut i: usize = 0;
    proof {
        assert(parts@.subrange(0, parts@.len() as int) =~= parts@);
    }
    while i < parts.len()
        invariant
            acc.wf(),
            i <= parts@.len(),
            scope_wf(*scope),
            forall|j: int|
                0 <= j < parts@.len() ==> reads_registry_named(
                    #[trigger] parts@[j],
                    registry.spec_scope_name(),
                ),
            clone_is_exact::<T>() ==> fold_hooks_model(
                parts@.subrange(i as int, parts@.len() as int),
                registry.spec_contexts(),
                scope_model(*scope),
                acc@,
            ) == fold_hooks_model(
                parts@,
                registry.spec_contexts(),
                scope_model(*scope),
                Seq::empty(),
            ),
        decreases parts@.len() - i,
    {
        proof {
            assert(decreases_to!(*parts => parts@));
            assert(decreases_to!(parts@ => parts@[i as int]));
        }
        let props = parts[i].hook(registry, scope);
        let ghost acc_pre = acc@;
        acc.merge(props);
        proof {
            if clone_is_exact::<T>() {
                let rest = parts@.subrange(i as int, parts@.len() as int);
                assert(rest[0] == parts@[i as int]);
                assert(rest.subrange(1, rest.len() as int) =~= parts@.subrange(
                    i + 1,
                    parts@.len() as int,
                ));
                assert(acc@ == assoc_merge(acc_pre, props@));
            }
        }
        i = i + 1;
    }
    proof {
        if clone_is_exact::<T>() {
            assert(parts@.subrange(parts@.len() as int, parts@.len() as int).len() == 0);
        }
    }
    acc
}

/// Merges several scope hook factories into one, so a composite component
/// can depend on several libraries' scopes at once. A single factory is
/// handed back unchanged; otherwise the composed factory folds its parts'
/// hook outputs together and keeps only the first entry of the fold under
/// the fixed key `"__scopebaseScope"` — so library authors must pick
/// distinct scope names, and with more than one part only one part's scope
/// stays addressable in the reduced result.
pub fn compose_context_scopes<T: Clone + PartialEq>(factories: Vec<ScopeHookFactory<T>>) -> (r:
    ScopeHookFactory<T>)
    ensures
        factories@.len() == 1 ==> r == factories@[0],
        factories@.len() != 1 ==> (r matches ScopeHookFactory::Composed { parts } && parts@
            == factories@),
{
    let mut fs = factories;
    if fs.len() == 1 {
        fs.remove(0)
    } else {
        ScopeHookFactory::Composed { parts: fs }
    }
}

/// Builds the registry for one named scope together with its hook factory,
/// composed behind the factories of the scopes it depends on. The factory
/// holds no context list of its own: its hook reads this scope's registry at
/// invocation time, so contexts registered through the creator after this
/// call are visible to it. Hand dependents a sealed factory from
/// [`ContextCreator::hook_factory`] instead: a dependency factory is hooked
/// with the depending scope's registry, which sealed parts ignore.
pub fn create_context_scope<T: Clone + PartialEq>(
    scope_name: &str,
    deps: Vec<ScopeHookFactory<T>>,
) -> (r: (ContextCreator<T>, ScopeHookFactory<T>))
    ensures
        r.0.spec_scope_name() == scope_name@,
        r.0.spec_contexts().len() == 0,
        deps@.len() == 0 ==> (r.1 matches ScopeHookFactory::Base { scope_name: n } && n@
            == scope_name@),
        deps@.len() > 0 ==> (r.1 matches ScopeHookFactory::Composed { parts } && parts@.len()
            == deps@.len() + 1 && (parts@[0] matches ScopeHookFactory::Base { scope_name: n } && n@
            == scope_name@) && parts@.subrange(1, parts@.len() as int) == deps@),
        (forall|i: int| 0 <= i < deps@.len() ==> is_sealed(#[trigger] deps@[i]))
            ==> reads_registry_named(r.1, scope_name@),
{
    let creator = ContextCreator::<T> { scope_name: scope_name.to_owned(), contexts: Vec::new() };
    let base = ScopeHookFactory::<T>::Base { scope_name: scope_name.to_owned() };
    if deps.is_empty() {
        (creator, base)
    } else {
        let mut all: Vec<ScopeHookFactory<T>> = Vec::new();
        all.push(base);
        let mut rest = deps;
        all.append(&mut rest);
        proof {
            assert(all@.subrange(1, all@.len() as int) =~= deps@);
        }
        let f = compose_context_scopes(all);
        proof {
            if forall|i: int| 0 <= i < deps@.len() ==> is_sealed(#[trigger] deps@[i]) {
                assert forall|i: int|
                    0 <= i < all@.len() implies reads_registry_named(
                    #[trigger] all@[i],
                    scope_name@,
                ) by {
                    if i > 0 {
                        assert(all@[i] == deps@[i - 1]);
                        lemma_sealed_reads_any_registry(all@[i], scope_name@);
                    }
                }
            }
        }
        (creator, f)
    }
}

/// Law: the scope's context list mirrors the registry slot for slot — the
/// handle at index `i` is the default registered by the `i`-th `create` call,
/// or a placeholder where that call registered none.
pub proof fn lemma_context_list_follows_registration<T>(defaults: Seq<Option<T>>)
    ensures
        handles_of_defaults(defaults).len() == defaults.len(),
        forall|i: int|
            0 <= i < defaults.len() ==> #[trigger] handles_of_defaults(defaults)[i] == (
            match defaults[i] {
                Some(v) => ContextHandle::<T>::Value(v),
                None => ContextHandle::<T>::Placeholder,
            }),
{
}

/// Law: deriving a scope hook's output twice from the same factory, the same
/// registry state and the same input scope yields identical mappings — in
/// particular, re-deriving a registry's scope mapping without further
/// registrations changes nothing.
pub proof fn lemma_hook_deterministic<T: Clone + PartialEq>(
    f: &ScopeHookFactory<T>,
    registry: &ContextCreator<T>,
    scope: &Scope<T>,
    r1: ScopeProps<T>,
    r2: ScopeProps<T>,
)
    requires
        clone_is_exact::<T>(),
        call_ensures(ScopeHookFactory::<T>::hook, (f, registry, scope), r1),
        call_ensures(ScopeHookFactory::<T>::hook, (f, registry, scope), r2),
    ensures
        r1@ == r2@,
{
}

/// How inserting relates to lookups: the inserted key is bound to the new
/// value, every other key keeps its binding, and uniqueness of keys is kept.
pub proof fn lemma_assoc_insert_properties<V>(s: Seq<(Seq<char>, V)>, k: Seq<char>, v: V)
    requires
        assoc_wf(s),
    ensures
        assoc_wf(assoc_insert(s, k, v)),
        forall|k2: Seq<char>| #[trigger]
            assoc_contains_key(assoc_insert(s, k, v), k2) <==> (k2 == k || assoc_contains_key(
                s,
                k2,
            )),
        assoc_value(assoc_insert(s, k, v), k) == v,
        forall|k2: Seq<char>|
            k2 != k && assoc_contains_key(s, k2) ==> #[trigger] assoc_value(
                assoc_insert(s, k, v),
                k2,
            ) == assoc_value(s, k2),
{
    let t = assoc_insert(s, k, v);
    if assoc_contains_key(s, k) {
        let w = assoc_key_index(s, k);
        assert(0 <= w < s.len() && s[w].0 == k);
        assert(t == s.update(w, (k, v)));
        assert forall|i: int| 0 <= i < t.len() implies #[trigger] t[i].0 == s[i].0 by {}
        assert forall|p: int, q: int| 0 <= p < q < t.len() implies t[p].0 != t[q].0 by {
            assert(s[p].0 != s[q].0);
        }
        assert forall|k2: Seq<char>| #[trigger]
            assoc_contains_key(t, k2) <==> (k2 == k || assoc_contains_key(s, k2)) by {
            if assoc_contains_key(t, k2) {
                let i = choose|i: int| 0 <= i < t.len() && t[i].0 == k2;
                assert(s[i].0 == k2);
                assert(assoc_contains_key(s, k2));
            }
            if k2 == k {
                assert(t[w].0 == k2);
                assert(assoc_contains_key(t, k2));
            }
            if assoc_contains_key(s, k2) {
                let i = choose|i: int| 0 <= i < s.len() && s[i].0 == k2;
                assert(t[i].0 == k2);
                assert(assoc_contains_key(t, k2));
            }
        }
        assert(t[w].0 == k);
        assert(assoc_contains_key(t, k));
        let wt = assoc_key_index(t, k);
        assert(0 <= wt < t.len() && t[wt].0 == k);
        assert(wt == w) by {
            if wt != w {
                assert(s[wt].0 == k);
                assert(s[w].0 == k);
            }
        }
        assert(assoc_value(t, k) == v);
        assert forall|k2: Seq<char>|
            k2 != k && assoc_contains_key(s, k2) implies #[trigger] assoc_value(t, k2)
            == assoc_value(s, k2) by {
            let i = assoc_key_index(s, k2);
            assert(0 <= i < s.len() && s[i].0 == k2);
            assert(i != w);
            assert(t[i].0 == k2);
            let j = assoc_key_index(t, k2);
            assert(0 <= j < t.len() && t[j].0 == k2);
            assert(j == i) by {
                if j != i {
                    assert(t[j].0 == t[i].0);
                }
            }
            assert(t[j].1 == s[i].1);
        }
    } else {
        assert(t == s.push((k, v)));
        assert forall|p: int, q: int| 0 <= p < q < t.len() implies t[p].0 != t[q].0 by {
            if q < s.len() {
                assert(s[p].0 != s[q].0);
            } else {
                assert(t[q].0 == k);
                assert(t[p].0 == s[p].0);
                if s[p].0 == k {
                    assert(assoc_contains_key(s, k));
                }
            }
        }
        assert forall|k2: Seq<char>| #[trigger]
            assoc_contains_key(t, k2) <==> (k2 == k || assoc_contains_key(s, k2)) by {
            if assoc_contains_key(t, k2) {
                let i = choose|i: int| 0 <= i < t.len() && t[i].0 == k2;
                if i < s.len() {
                    assert(s[i].0 == k2);
                    assert(assoc_contains_key(s, k2));
                } else {
                    assert(k2 == k);
                }
            }
            if k2 == k {
                assert(t[s.len() as int].0 == k2);
                assert(assoc_contains_key(t, k2));
            }
            if assoc_contains_key(s, k2) {
                let i = choose|i: int| 0 <= i < s.len() && s[i].0 == k2;
                assert(t[i].0 == k2);
                assert(assoc_contains_key(t, k2));
            }
        }
        assert(t[s.len() as int].0 == k);
        assert(assoc_contains_key(t, k));
        let wt = assoc_key_index(t, k);
        assert(0 <= wt < t.len() && t[wt].0 == k);
        assert(wt == s.len()) by {
            if wt < s.len() {
                assert(s[wt].0 == k);
                assert(assoc_contains_key(s, k));
            }
        }
        assert(assoc_value(t, k) == v);
        assert forall|k2: Seq<char>|
            k2 != k && assoc_contains_key(s, k2) implies #[trigger] assoc_value(t, k2)
            == assoc_value(s, k2) by {
            let i = assoc_key_index(s, k2);
            assert(0 <= i < s.len() && s[i].0 == k2);
            assert(t[i].0 == k2);
            let j = assoc_key_index(t, k2);
            assert(0 <= j < t.len() && t[j].0 == k2);
            assert(j != s.len());
            assert(j == i) by {
                if j != i {
                    assert(t[j].0 == t[i].0);
                }
            }
            assert(t[j].1 == s[i].1);
        }
    }
}

/// Law: merging loses nothing on distinct keys and lets the later mapping
/// win on collisions. The merged mapping holds exactly the keys of the two
/// inputs; a key held by `other` carries `other`'s value — last write wins,
/// the value `acc` held for it is gone — and every other key of `acc` keeps
/// `acc`'s value.
pub proof fn lemma_merge_properties<V>(acc: Seq<(Seq<char>, V)>, other: Seq<(Seq<char>, V)>)
    requires
        assoc_wf(acc),
        assoc_wf(other),
    ensures
        assoc_wf(assoc_merge(acc, other)),
        forall|k: Seq<char>| #[trigger]
            assoc_contains_key(assoc_merge(acc, other), k) <==> (assoc_contains_key(acc, k)
                || assoc_contains_key(other, k)),
        forall|k: Seq<char>|
            assoc_contains_key(other, k) ==> #[trigger] assoc_value(assoc_merge(acc, other), k)
                == assoc_value(other, k),
        forall|k: Seq<char>|
            !assoc_contains_key(other, k) && assoc_contains_key(acc, k) ==> #[trigger] assoc_value(
                assoc_merge(acc, other),
                k,
            ) == assoc_value(acc, k),
    decreases other.len(),
{
    let m = assoc_merge(acc, other);
    if other.len() == 0 {
        assert forall|k: Seq<char>| !(#[trigger] assoc_contains_key(other, k)) by {
            if assoc_contains_key(other, k) {
                let i = choose|i: int| 0 <= i < other.len() && other[i].0 == k;
            }
        }
    } else {
        let k0 = other[0].0;
        let v0 = other[0].1;
        let acc1 = assoc_insert(acc, k0, v0);
        let tail = other.subrange(1, other.len() as int);
        lemma_assoc_insert_properties(acc, k0, v0);
        assert(assoc_wf(tail)) by {
            assert forall|p: int, q: int| 0 <= p < q < tail.len() implies tail[p].0 != tail[q].0 by {
                assert(other[p + 1].0 != other[q + 1].0);
            }
        }
        lemma_merge_properties(acc1, tail);
        assert(m == assoc_merge(acc1, tail));
        assert(!assoc_contains_key(tail, k0)) by {
            if assoc_contains_key(tail, k0) {
                let i = choose|i: int| 0 <= i < tail.len() && tail[i].0 == k0;
                assert(other[i + 1].0 == other[0].0);
            }
        }
        assert forall|k: Seq<char>| #[trigger]
            assoc_contains_key(other, k) <==> (k == k0 || assoc_contains_key(tail, k)) by {
            if assoc_contains_key(other, k) {
                let i = choose|i: int| 0 <= i < other.len() && other[i].0 == k;
                if i > 0 {
                    assert(tail[i - 1].0 == k);
                    assert(assoc_contains_key(tail, k));
                }
            }
            if k == k0 {
                assert(other[0].0 == k);
                assert(assoc_contains_key(other, k));
            }
            if assoc_contains_key(tail, k) {
                let i = choose|i: int| 0 <= i < tail.len() && tail[i].0 == k;
                assert(other[i + 1].0 == k);
                assert(assoc_contains_key(other, k));
            }
        }
        assert(assoc_value(other, k0) == v0) by {
            let w = assoc_key_index(other, k0);
            assert(0 <= w < other.len() && other[w].0 == k0);
            if w != 0 {
                assert(other[0].0 != other[w].0);
            }
        }
        assert forall|k: Seq<char>|
            k != k0 && assoc_contains_key(tail, k) implies #[trigger] assoc_value(other, k)
            == assoc_value(tail, k) by {
            let i = assoc_key_index(tail, k);
            assert(0 <= i < tail.len() && tail[i].0 == k);
            assert(other[i + 1].0 == k);
            assert(assoc_contains_key(other, k));
            let j = assoc_key_index(other, k);
            assert(0 <= j < other.len() && other[j].0 == k);
            assert(j == i + 1) by {
                if j != i + 1 {
                    assert(other[j].0 == other[i + 1].0);
                }
            }
            assert(assoc_value(other, k) == other[i + 1].1);
            assert(tail[i].1 == other[i + 1].1);
        }
        assert forall|k: Seq<char>|
            assoc_contains_key(other, k) implies #[trigger] assoc_value(m, k) == assoc_value(
            other,
            k,
        ) by {
            if k == k0 {
                assert(assoc_value(m, k) == assoc_value(acc1, k));
                assert(assoc_value(acc1, k) == v0);
            } else {
                assert(assoc_contains_key(tail, k));
                assert(assoc_value(m, k) == assoc_value(tail, k));
            }
        }
        assert forall|k: Seq<char>|
            !assoc_contains_key(other, k) && assoc_contains_key(acc, k) implies #[trigger]
        assoc_value(m, k) == assoc_value(acc, k) by {
            assert(k != k0);
            assert(!assoc_contains_key(tail, k));
            assert(assoc_contains_key(acc1, k));
            assert(assoc_value(m, k) == assoc_value(acc1, k));
            assert(assoc_value(acc1, k) == assoc_value(acc, k));
        }
    }
}

} // verus!
