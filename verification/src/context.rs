//! The basic context pair: a provider that memoizes and injects a value, and
//! a consumer that reads the nearest injected value or falls back to the
//! default registered when the pair was created.

use vstd::prelude::*;
use vstd::std_specs::cmp::PartialEqSpec;

use crate::ambient::AmbientStore;
use crate::memo::{memo_update_step, MemoCell};
use crate::values::{clone_is_exact, duplicate};

verus! {

/// A provider: memoizes the value handed to each render and injects the
/// memoized copy into the subtree's ambient store. One provider value belongs
/// to one render subtree; its memo cell is created on the first render.
pub struct Provider<T> {
    cell: Option<MemoCell<T>>,
}

/// A consumer: reads the nearest injected value of the pair's type, or falls
/// back to the default registered at creation, and otherwise reports a fatal
/// usage error naming both the consumer call-site and the expected provider.
pub struct Consumer<T> {
    default_context: Option<T>,
    root_component_name: String,
}

/// How one `render` call relates a provider's memo state before and after:
/// the first render creates the cell; every later render feeds the incoming
/// value through the cell's value-equality memoization.
pub open spec fn provider_step<T: PartialEq>(pre: Provider<T>, incoming: T, post: Provider<T>) -> bool {
    match pre.spec_cell() {
        None => post.spec_cell() matches Some(c) && c.spec_value() == incoming
            && c.spec_recomputations() == 0,
        Some(c) => post.spec_cell() matches Some(c2) && memo_update_step(c, incoming, c2),
    }
}

impl<T: PartialEq> Provider<T> {
    /// The per-subtree memo cell: `None` until the first render.
    pub closed spec fn spec_cell(&self) -> Option<MemoCell<T>> {
        self.cell
    }
}

impl<T: PartialEq> Provider<T> {
    /// The downstream recomputation signal: how many times the memoized value
    /// has been re-derived; `None` before the first render.
    pub fn recomputation_count(&self) -> (r: Option<u64>)
        ensures
            r is Some <==> self.spec_cell() is Some,
            self.spec_cell() matches Some(c) ==> r == Some(c.spec_recomputations()),
    {
        match &self.cell {
            Some(c) => Some(c.recomputation_count()),
            None => None,
        }
    }
}

impl<T: Clone + PartialEq> Provider<T> {
    /// Renders the provider with `value`: memoizes it (re-deriving the stored
    /// copy only when `value` differs under `==` from the one stored) and
    /// injects a copy of the memoized value into the subtree's ambient store.
    /// The children handed to a provider are rendered beneath it unchanged by
    /// the host framework; they play no part in this step.
    pub fn render(&mut self, value: T, store: &mut AmbientStore<T>)
        requires
            old(self).spec_cell() matches Some(c) ==> c.spec_recomputations() < u64::MAX,
        ensures
            final(self).spec_cell() is Some,
            T::obeys_eq_spec() ==> provider_step(*old(self), value, *final(self)),
            final(store)@ is Some,
            cloned::<T>(final(self).spec_cell().unwrap().spec_value(), final(store)@.unwrap()),
            clone_is_exact::<T>() ==> final(store)@ == Some(
                final(self).spec_cell().unwrap().spec_value(),
            ),
    {
        match &mut self.cell {
            Some(cell) => {
                cell.update(value);
            },
            None => {
                self.cell = Some(MemoCell::new(value));
            },
        }
        match &self.cell {
            Some(cell) => {
                let injected = duplicate(cell.current());
                store.provide(injected);
            },
            None => {
                proof {
                    assert(false);
                }
            },
        }
    }
}

/// The text of the fatal usage error: it names the consumer call-site and the
/// provider the consumer must be rendered beneath.
pub open spec fn missing_context_message_model(consumer: Seq<char>, root: Seq<char>) -> Seq<char> {
    "`"@ + consumer + "` must be used within `"@ + root + "`"@
}

/// Builds the fatal usage error text for the given consumer call-site and
/// root provider name.
pub fn missing_context_message(consumer_name: &str, root_component_name: &str) -> (r: String)
    ensures
        r@ == missing_context_message_model(consumer_name@, root_component_name@),
{
    let mut m = String::new();
    m.append("`");
    m.append(consumer_name);
    m.append("` must be used within `");
    m.append(root_component_name);
    m.append("`");
    proof {
        assert(m@ =~= missing_context_message_model(consumer_name@, root_component_name@));
    }
    m
}

/// Looks a value up in the ambient store and falls back to the registered
/// default: `None` only when neither is available.
pub fn lookup_or_default<T: Clone>(store: &AmbientStore<T>, default_context: &Option<T>) -> (r:
    Option<T>)
    ensures
        r is Some <==> (store@ is Some || *default_context is Some),
        store@ matches Some(v) ==> (r matches Some(c) && cloned::<T>(v, c)),
        store@ is None ==> (*default_context matches Some(d) ==> (r matches Some(c) && cloned::<
            T,
        >(d, c))),
        clone_is_exact::<T>() ==> r == (if store@ is Some {
            store@
        } else {
            *default_context
        }),
{
    match store.read() {
        Some(v) => Some(duplicate(v)),
        None => match default_context {
            Some(d) => Some(duplicate(d)),
            None => None,
        },
    }
}

impl<T: Clone> Consumer<T> {
    /// The default registered when the pair was created, if any.
    pub closed spec fn spec_default(&self) -> Option<T> {
        self.default_context
    }

    /// The root provider name recorded for diagnostics.
    pub closed spec fn spec_root_name(&self) -> Seq<char> {
        self.root_component_name@
    }

    /// Reads the nearest injected value, falling back to the registered
    /// default. Calling a consumer with neither an enclosing provider nor a
    /// default is a usage error and is excluded here; `try_consume` reports
    /// it instead.
    pub fn consume(&self, consumer_name: &str, store: &AmbientStore<T>) -> (r: T)
        requires
            store@ is Some || self.spec_default() is Some,
        ensures
            store@ matches Some(v) ==> cloned::<T>(v, r),
            store@ is None ==> (self.spec_default() matches Some(d) ==> cloned::<T>(d, r)),
            clone_is_exact::<T>() ==> r == (if store@ is Some {
                store@
            } else {
                self.spec_default()
            }).unwrap(),
    {
        match lookup_or_default(store, &self.default_context) {
            Some(v) => v,
            None => unreached(),
        }
    }

    /// Like `consume`, but total: when neither an enclosing provider nor a
    /// default is available it hands back the fatal usage error text instead
    /// of a value. The render glue raises that text as an unrecoverable
    /// abort, never as a condition to be caught and ignored.
    pub fn try_consume(&self, consumer_name: &str, store: &AmbientStore<T>) -> (r: Result<
        T,
        String,
    >)
        ensures
            r is Ok <==> (store@ is Some || self.spec_default() is Some),
            store@ matches Some(v) ==> (r matches Ok(c) && cloned::<T>(v, c)),
            store@ is None ==> (self.spec_default() matches Some(d) ==> (r matches Ok(c)
                && cloned::<T>(d, c))),
            clone_is_exact::<T>() && (store@ is Some || self.spec_default() is Some) ==> r
                == Ok::<T, String>((if store@ is Some {
                store@
            } else {
                self.spec_default()
            }).unwrap()),
            r matches Err(m) ==> m@ == missing_context_message_model(
                consumer_name@,
                self.spec_root_name(),
            ),
    {
        match lookup_or_default(store, &self.default_context) {
            Some(v) => Ok(v),
            None => Err(missing_context_message(consumer_name, &self.root_component_name)),
        }
    }
}

/// Creates a context pair bound to one value type: a provider that injects
/// the memoized value for its subtree, and a consumer that reads it back or
/// falls back to `default_context`. `root_component_name` only labels the
/// fatal usage error raised when a consumer finds neither a provided value
/// nor a default.
pub fn create_context<T: Clone + PartialEq>(
    root_component_name: &str,
    default_context: Option<T>,
) -> (r: (Provider<T>, Consumer<T>))
    ensures
        r.0.spec_cell() is None,
        r.1.spec_default() == default_context,
        r.1.spec_root_name() == root_component_name@,
{
    let provider = Provider::<T> { cell: None };
    let consumer = Consumer::<T> {
        default_context,
        root_component_name: root_component_name.to_owned(),
    };
    (provider, consumer)
}

/// Whether `needle` occurs contiguously inside `hay`.
pub open spec fn contains_seq<A>(hay: Seq<A>, needle: Seq<A>) -> bool {
    exists|i: int|
        0 <= i && i + needle.len() <= hay.len() && #[trigger] hay.subrange(i, i + needle.len())
            == needle
}

/// Law: the fatal usage error text names both the consumer call-site and the
/// expected root provider.
pub proof fn lemma_missing_context_message_names(consumer: Seq<char>, root: Seq<char>)
    ensures
        contains_seq(missing_context_message_model(consumer, root), consumer),
        contains_seq(missing_context_message_model(consumer, root), root),
{
    reveal_strlit("`");
    reveal_strlit("` must be used within `");
    let msg = missing_context_message_model(consumer, root);
    assert(msg.subrange(1, 1 + consumer.len() as int) =~= consumer);
    assert(contains_seq(msg, consumer));
    let j = consumer.len() as int + 24;
    assert(msg.subrange(j, j + root.len() as int) =~= root);
    assert(contains_seq(msg, root));
}

/// Law: a provide/consume round trip hands the provided value back. After a
/// provider renders `v` and its subtree's store holds the injected value, any
/// result a consumer reads from that store is `v` itself or — when the
/// memoized copy of an earlier, equal value was kept — a value equal to `v`
/// under `T`'s `==`.
pub proof fn lemma_provide_consume_round_trip<T: Clone + PartialEq>(
    pre: Provider<T>,
    post: Provider<T>,
    v: T,
    store: AmbientStore<T>,
    cons: Consumer<T>,
    name: &str,
    r: T,
)
    requires
        clone_is_exact::<T>(),
        T::obeys_eq_spec(),
        provider_step(pre, v, post),
        store@ == Some(post.spec_cell().unwrap().spec_value()),
        call_ensures(Consumer::<T>::consume, (&cons, name, &store), r),
    ensures
        r == v || r.eq_spec(&v),
{
    let m = post.spec_cell().unwrap().spec_value();
    assert(r == m);
    match pre.spec_cell() {
        None => {
            assert(m == v);
        },
        Some(c) => {
            if c.spec_value().eq_spec(&v) {
                assert(m == c.spec_value());
            } else {
                assert(m == v);
            }
        },
    }
}

/// Law: with no enclosing provider and a registered default, a consumer
/// hands back exactly that default, every time it is called.
pub proof fn lemma_default_fallback<T: Clone>(
    cons: Consumer<T>,
    store: AmbientStore<T>,
    name1: &str,
    name2: &str,
    d: T,
    r1: T,
    r2: T,
)
    requires
        clone_is_exact::<T>(),
        store@ is None,
        cons.spec_default() == Some(d),
        call_ensures(Consumer::<T>::consume, (&cons, name1, &store), r1),
        call_ensures(Consumer::<T>::consume, (&cons, name2, &store), r2),
    ensures
        r1 == d,
        r2 == d,
{
}

/// Law: rendering a provider twice in succession, the second time with a
/// value equal under `T`'s `==` to the first — equal, not identical — leaves
/// the memo cell untouched: no second downstream recomputation signal.
pub proof fn lemma_second_equal_render_is_memoized<T: Clone + PartialEq>(
    p0: Provider<T>,
    p1: Provider<T>,
    p2: Provider<T>,
    v1: T,
    v2: T,
)
    requires
        T::obeys_eq_spec(),
        p0.spec_cell() is None,
        provider_step(p0, v1, p1),
        v1.eq_spec(&v2),
        provider_step(p1, v2, p2),
    ensures
        p2.spec_cell() == p1.spec_cell(),
        p2.spec_cell().unwrap().spec_recomputations() == 0,
{
}

} // verus!
