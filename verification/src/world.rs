//! The facade: spawning with capability dispatch, type registration, and the
//! per-tick walk over the processing registry.

use vstd::prelude::*;

use crate::node::{kind_processable, kind_is_processable, ticked_slot, Node, NodeKind, NodeSlot};
use crate::store::{lemma_push_keeps_distinct, NodeStore};

verus! {

/// The identifiers of the processable spawns, in spawn order: the contents
/// the processing registry is required to have.
pub open spec fn proc_ids(
    ids: Seq<necs::entity::Entity>,
    kinds: Seq<NodeKind>,
) -> Seq<necs::entity::Entity>
    decreases ids.len(),
{
    if ids.len() == 0 {
        Seq::empty()
    } else {
        let rest = proc_ids(ids.drop_last(), kinds.drop_last());
        if kinds.len() == ids.len() && kind_processable(kinds.last()) {
            rest.push(ids.last())
        } else {
            rest
        }
    }
}

/// One spawn extends the registry contents exactly when its kind is
/// processable.
pub proof fn lemma_proc_ids_push(
    ids: Seq<necs::entity::Entity>,
    kinds: Seq<NodeKind>,
    e: necs::entity::Entity,
    k: NodeKind,
)
    requires
        ids.len() == kinds.len(),
    ensures
        proc_ids(ids.push(e), kinds.push(k)) == (if kind_processable(k) {
            proc_ids(ids, kinds).push(e)
        } else {
            proc_ids(ids, kinds)
        }),
{
    assert(ids.push(e).drop_last() =~= ids);
    assert(kinds.push(k).drop_last() =~= kinds);
}

/// The registry holds nothing but spawned identifiers.
pub proof fn lemma_proc_ids_subset(
    ids: Seq<necs::entity::Entity>,
    kinds: Seq<NodeKind>,
    e: necs::entity::Entity,
)
    requires
        proc_ids(ids, kinds).contains(e),
    ensures
        ids.contains(e),
    decreases ids.len(),
{
    let p = proc_ids(ids, kinds);
    if ids.len() == 0 {
    } else {
        let rest = proc_ids(ids.drop_last(), kinds.drop_last());
        if kinds.len() == ids.len() && kind_processable(kinds.last()) {
            if e == ids.last() {
                assert(ids[ids.len() - 1] == e);
            } else {
                let j = choose|j: int| 0 <= j < p.len() && p[j] == e;
                assert(rest[j] == e);
                assert(rest.contains(e));
                lemma_proc_ids_subset(ids.drop_last(), kinds.drop_last(), e);
                let i = choose|i: int| 0 <= i < ids.drop_last().len() && ids.drop_last()[i] == e;
                assert(ids[i] == e);
            }
        } else {
            lemma_proc_ids_subset(ids.drop_last(), kinds.drop_last(), e);
            let i = choose|i: int| 0 <= i < ids.drop_last().len() && ids.drop_last()[i] == e;
            assert(ids[i] == e);
        }
    }
}

/// With distinct identifiers, a spawned identifier is in the registry exactly
/// when its spawn was filed under a processable kind.
pub proof fn lemma_proc_ids_membership(
    ids: Seq<necs::entity::Entity>,
    kinds: Seq<NodeKind>,
    i: int,
)
    requires
        ids.len() == kinds.len(),
        ids.no_duplicates(),
        0 <= i < ids.len(),
    ensures
        proc_ids(ids, kinds).contains(ids[i]) <==> kind_processable(kinds[i]),
    decreases ids.len(),
{
    let p = proc_ids(ids, kinds);
    let rest = proc_ids(ids.drop_last(), kinds.drop_last());
    if i == ids.len() - 1 {
        if kind_processable(kinds[i]) {
            assert(p[p.len() - 1] == ids[i]);
        } else {
            if rest.contains(ids[i]) {
                lemma_proc_ids_subset(ids.drop_last(), kinds.drop_last(), ids[i]);
                let j = choose|j: int|
                    0 <= j < ids.drop_last().len() && ids.drop_last()[j] == ids[i];
                assert(ids[j] == ids[i]);
            }
        }
    } else {
        lemma_proc_ids_membership(ids.drop_last(), kinds.drop_last(), i);
        assert(ids.drop_last()[i] == ids[i]);
        assert(kinds.drop_last()[i] == kinds[i]);
        if kind_processable(kinds.last()) {
            if ids.last() == ids[i] {
                assert(ids[ids.len() - 1] == ids[i]);
            }
            assert(rest.contains(ids[i]) <==> p.contains(ids[i])) by {
                if p.contains(ids[i]) {
                    let j = choose|j: int| 0 <= j < p.len() && p[j] == ids[i];
                    if j < rest.len() {
                        assert(rest[j] == ids[i]);
                    }
                }
                if rest.contains(ids[i]) {
                    let j = choose|j: int| 0 <= j < rest.len() && rest[j] == ids[i];
                    assert(p[j] == ids[i]);
                }
            }
        }
    }
}

/// A registry built from distinct identifiers is itself free of repeats.
pub proof fn lemma_proc_ids_distinct(ids: Seq<necs::entity::Entity>, kinds: Seq<NodeKind>)
    requires
        ids.no_duplicates(),
    ensures
        proc_ids(ids, kinds).no_duplicates(),
    decreases ids.len(),
{
    if ids.len() == 0 {
    } else {
        lemma_proc_ids_distinct(ids.drop_last(), kinds.drop_last());
        let rest = proc_ids(ids.drop_last(), kinds.drop_last());
        if kinds.len() == ids.len() && kind_processable(kinds.last()) {
            if rest.contains(ids.last()) {
                lemma_proc_ids_subset(ids.drop_last(), kinds.drop_last(), ids.last());
                let j = choose|j: int|
                    0 <= j < ids.drop_last().len() && ids.drop_last()[j] == ids.last();
                assert(ids[j] == ids[ids.len() - 1]);
            }
            lemma_push_keeps_distinct(rest, ids.last());
        }
    }
}

/// Whether the spawn at index `i` takes part in a tick: its kind is
/// processable, that kind's adapter is registered, and the node is still in
/// its slot.
pub open spec fn slot_qualifies(w: World, i: int) -> bool {
    &&& w.store_view().adapter_for(w.store_view().kinds()[i])
    &&& w.store_view().slots()[i] is Some
    &&& kind_processable(w.store_view().kinds()[i])
}

/// The relation one call of [`World::process_nodes`] establishes between the
/// world before and after: the registry, identifiers, kinds, liveness and
/// registrations stand; the walk dispatched exactly the registry, in order,
/// after everything dispatched before; and each spawn advanced by exactly
/// one update exactly when it qualifies.
pub open spec fn tick_rel(pre: World, post: World) -> bool {
    &&& post.registry() == pre.registry()
    &&& post.store_view().ids() == pre.store_view().ids()
    &&& post.store_view().kinds() == pre.store_view().kinds()
    &&& post.store_view().live() == pre.store_view().live()
    &&& post.store_view().slots().len() == pre.store_view().slots().len()
    &&& (forall|k: NodeKind|
        post.store_view().kind_registered(k) == pre.store_view().kind_registered(k))
    &&& (forall|k: NodeKind| post.store_view().adapter_for(k) == pre.store_view().adapter_for(k))
    &&& post.store_view().ticks() == pre.store_view().ticks() + pre.registry()
    &&& (forall|i: int|
        0 <= i < pre.store_view().slots().len()
            ==> #[trigger] post.store_view().slots()[i] == (if slot_qualifies(pre, i) {
            ticked_slot(pre.store_view().slots()[i])
        } else {
            pre.store_view().slots()[i]
        }))
}

/// The relation one call of [`World::remove`] establishes: the registry and
/// everything else stand, except that the removed identifier's slot is
/// emptied and its liveness withdrawn.
pub open spec fn removal_rel(pre: World, post: World, id: necs::entity::Entity) -> bool {
    &&& post.registry() == pre.registry()
    &&& post.store_view().ids() == pre.store_view().ids()
    &&& post.store_view().kinds() == pre.store_view().kinds()
    &&& post.store_view().ticks() == pre.store_view().ticks()
    &&& post.store_view().live() == pre.store_view().live().remove(id)
    &&& post.store_view().slots().len() == pre.store_view().slots().len()
    &&& (forall|k: NodeKind|
        post.store_view().kind_registered(k) == pre.store_view().kind_registered(k))
    &&& (forall|k: NodeKind| post.store_view().adapter_for(k) == pre.store_view().adapter_for(k))
    &&& (forall|i: int|
        0 <= i < pre.store_view().slots().len()
            ==> #[trigger] post.store_view().slots()[i] == (if pre.store_view().ids()[i] == id {
            None::<NodeSlot>
        } else {
            pre.store_view().slots()[i]
        }))
}

/// The facade over the node store: it owns the processing registry, decides
/// at spawn and registration time whether a node type takes part in
/// processing, and walks the registry once per tick.
pub struct World {
    store: NodeStore,
    process_nodes: Vec<necs::entity::Entity>,
}

impl World {
    /// The store this facade wraps, as a specification value.
    pub closed spec fn store_view(self) -> NodeStore {
        self.store
    }

    /// The processing registry: identifiers of processable spawns, in order.
    pub closed spec fn registry(self) -> Seq<necs::entity::Entity> {
        self.process_nodes@
    }

    /// The facade's invariant: the store is coherent and the registry holds
    /// exactly the identifiers of the spawns filed under a processable kind,
    /// in spawn order.
    pub open spec fn wf(self) -> bool {
        &&& self.store_view().wf()
        &&& self.registry() == proc_ids(self.store_view().ids(), self.store_view().kinds())
    }

    /// An empty world.
    pub fn new() -> (w: World)
        ensures
            w.wf(),
            w.registry().len() == 0,
            w.store_view().ids().len() == 0,
            w.store_view().slots().len() == 0,
            w.store_view().kinds().len() == 0,
            w.store_view().ticks().len() == 0,
            forall|k: NodeKind| !w.store_view().kind_registered(k),
            forall|k: NodeKind| !w.store_view().adapter_for(k),
    {
        let w = World { store: NodeStore::new(), process_nodes: Vec::new() };
        proof {
            assert(w.registry() =~= proc_ids(w.store_view().ids(), w.store_view().kinds()));
        }
        w
    }

    /// Read access to the wrapped store.
    pub fn store(&self) -> (s: &NodeStore)
        ensures
            *s == self.store_view(),
    {
        &self.store
    }

    /// Stores a node and returns its fresh identifier; when the node's type
    /// files under a processable kind, and only then, the identifier is also
    /// appended to the processing registry.
    pub fn spawn<T: Node>(&mut self, node: T) -> (id: necs::entity::Entity)
        requires
            old(self).wf(),
        ensures
            final(self).wf(),
            !old(self).store_view().ids().contains(id),
            final(self).store_view().ids() == old(self).store_view().ids().push(id),
            final(self).store_view().slots() == old(self).store_view().slots().push(
                Some(node.slot_of()),
            ),
            final(self).store_view().kinds() == old(self).store_view().kinds().push(T::kind()),
            final(self).store_view().ticks() == old(self).store_view().ticks(),
            final(self).store_view().live() == old(self).store_view().live().insert(id),
            forall|k: NodeKind|
                final(self).store_view().kind_registered(k) == old(self).store_view()
                    .kind_registered(k),
            forall|k: NodeKind|
                final(self).store_view().adapter_for(k) == old(self).store_view().adapter_for(k),
            final(self).registry() == (if kind_processable(T::kind()) {
                old(self).registry().push(id)
            } else {
                old(self).registry()
            }),
    {
        let slot = node.into_slot();
        let id = self.store.insert(slot);
        let k = T::kind_of();
        if kind_is_processable(k) {
            self.process_nodes.push(id);
        }
        proof {
            old(self).store_view().lemma_lens();
            lemma_proc_ids_push(
                old(self).store_view().ids(),
                old(self).store_view().kinds(),
                id,
                T::kind(),
            );
        }
        id
    }

    /// Declares a node type: its kind gets its base registration, and — when
    /// and only when the kind is processable — an adapter under the
    /// processing interface, so that identifier lookup can reach instances.
    /// The registry and the stored nodes are untouched.
    pub fn register_node<T: Node>(&mut self)
        requires
            old(self).wf(),
        ensures
            final(self).wf(),
            final(self).registry() == old(self).registry(),
            final(self).store_view().ids() == old(self).store_view().ids(),
            final(self).store_view().slots() == old(self).store_view().slots(),
            final(self).store_view().kinds() == old(self).store_view().kinds(),
            final(self).store_view().ticks() == old(self).store_view().ticks(),
            final(self).store_view().live() == old(self).store_view().live(),
            forall|j: NodeKind|
                final(self).store_view().kind_registered(j) == (old(self).store_view()
                    .kind_registered(j) || j == T::kind()),
            forall|j: NodeKind|
                final(self).store_view().adapter_for(j) == (old(self).store_view().adapter_for(j)
                    || (j == T::kind() && kind_processable(T::kind()))),
    {
        let k = T::kind_of();
        self.store.register_kind(k);
        if kind_is_processable(k) {
            self.store.register_adapter(k);
        }
    }

    /// One tick: walks the processing registry in insertion order and hands
    /// each identifier to the store's resilient dispatch.  Every registered
    /// identifier is dispatched exactly once, in order, whether or not it
    /// still resolves; a slot advances by one update exactly when its
    /// identifier was registered, its kind has a processing adapter, and the
    /// node is still there.
    pub fn process_nodes(&mut self)
        requires
            old(self).wf(),
        ensures
            final(self).wf(),
            final(self).registry() == old(self).registry(),
            final(self).store_view().ids() == old(self).store_view().ids(),
            final(self).store_view().kinds() == old(self).store_view().kinds(),
            final(self).store_view().live() == old(self).store_view().live(),
            final(self).store_view().slots().len() == old(self).store_view().slots().len(),
            forall|k: NodeKind|
                final(self).store_view().kind_registered(k) == old(self).store_view()
                    .kind_registered(k),
            forall|k: NodeKind|
                final(self).store_view().adapter_for(k) == old(self).store_view().adapter_for(k),
            final(self).store_view().ticks() == old(self).store_view().ticks()
                + old(self).registry(),
            forall|i: int|
                0 <= i < old(self).store_view().slots().len()
                    ==> final(self).store_view().slots()[i] == (if old(self).store_view()
                    .adapter_for(old(self).store_view().kinds()[i]) && old(self).store_view()
                    .slots()[i] is Some && kind_processable(old(self).store_view().kinds()[i]) {
                    ticked_slot(old(self).store_view().slots()[i])
                } else {
                    old(self).store_view().slots()[i]
                }),
            tick_rel(*old(self), *final(self)),
    {
        proof {
            old(self).store_view().lemma_ids_distinct();
            old(self).store_view().lemma_lens();
            lemma_proc_ids_distinct(old(self).store_view().ids(), old(self).store_view().kinds());
        }
        let ghost oldreg = old(self).registry();
        let ghost oldstore = old(self).store_view();
        let n = self.process_nodes.len();
        let mut idx: usize = 0;
        while idx < n
            invariant
                0 <= idx <= n,
                n == self.process_nodes@.len(),
                self.process_nodes@ == oldreg,
                oldreg == proc_ids(oldstore.ids(), oldstore.kinds()),
                oldreg.no_duplicates(),
                oldstore.wf(),
                oldstore.ids().no_duplicates(),
                oldstore.ids().len() == oldstore.kinds().len(),
                oldstore.ids().len() == oldstore.slots().len(),
                self.store.wf(),
                self.store.ids() == oldstore.ids(),
                self.store.kinds() == oldstore.kinds(),
                self.store.live() == oldstore.live(),
                self.store.slots().len() == oldstore.slots().len(),
                forall|k: NodeKind| self.store.kind_registered(k) == oldstore.kind_registered(k),
                forall|k: NodeKind| self.store.adapter_for(k) == oldstore.adapter_for(k),
                self.store.ticks() == oldstore.ticks() + oldreg.subrange(0, idx as int),
                forall|i: int|
                    0 <= i < oldstore.slots().len()
                        ==> self.store.slots()[i] == (if oldstore.adapter_for(
                        oldstore.kinds()[i],
                    ) && oldstore.slots()[i] is Some && oldreg.subrange(0, idx as int).contains(
                        oldstore.ids()[i],
                    ) {
                        ticked_slot(oldstore.slots()[i])
                    } else {
                        oldstore.slots()[i]
                    }),
            decreases n - idx,
        {
            let e = self.process_nodes[idx];
            let ghost prestore = self.store;
            self.store.dispatch(e);
            proof {
                assert(oldreg.subrange(0, idx as int).push(e) =~= oldreg.subrange(
                    0,
                    idx as int + 1,
                ));
                assert(self.store.ticks() =~= oldstore.ticks() + oldreg.subrange(
                    0,
                    idx as int + 1,
                ));
                assert forall|i: int| 0 <= i < oldstore.slots().len() implies self.store.slots()[i]
                    == (if oldstore.adapter_for(oldstore.kinds()[i]) && oldstore.slots()[i] is Some
                    && oldreg.subrange(0, idx as int + 1).contains(oldstore.ids()[i]) {
                    ticked_slot(oldstore.slots()[i])
                } else {
                    oldstore.slots()[i]
                }) by {
                    let sub0 = oldreg.subrange(0, idx as int);
                    let sub1 = oldreg.subrange(0, idx as int + 1);
                    if oldstore.ids()[i] == e {
                        assert(sub1[idx as int] == e);
                        assert(sub1.contains(oldstore.ids()[i]));
                        if sub0.contains(e) {
                            let j = choose|j: int| 0 <= j < sub0.len() && sub0[j] == e;
                            assert(oldreg[j] == e);
                            assert(oldreg[idx as int] == e);
                        }
                        assert(!sub0.contains(e));
                        assert(prestore.slots()[i] == oldstore.slots()[i]);
                    } else {
                        if sub1.contains(oldstore.ids()[i]) {
                            let j = choose|j: int|
                                0 <= j < sub1.len() && sub1[j] == oldstore.ids()[i];
                            if j == idx as int {
                                assert(sub1[j] == e);
                            } else {
                                assert(sub0[j] == oldstore.ids()[i]);
                            }
                        }
                        if sub0.contains(oldstore.ids()[i]) {
                            let j = choose|j: int|
                                0 <= j < sub0.len() && sub0[j] == oldstore.ids()[i];
                            assert(sub1[j] == oldstore.ids()[i]);
                        }
                        assert(sub0.contains(oldstore.ids()[i]) == sub1.contains(
                            oldstore.ids()[i],
                        ));
                    }
                }
            }
            idx = idx + 1;
        }
        proof {
            assert(oldreg.subrange(0, n as int) =~= oldreg);
            assert forall|i: int| 0 <= i < oldstore.slots().len() implies self.store.slots()[i]
                == (if oldstore.adapter_for(oldstore.kinds()[i]) && oldstore.slots()[i] is Some
                && kind_processable(oldstore.kinds()[i]) {
                ticked_slot(oldstore.slots()[i])
            } else {
                oldstore.slots()[i]
            }) by {
                lemma_proc_ids_membership(oldstore.ids(), oldstore.kinds(), i);
            }
        }
    }

    /// Removes the node under an identifier, forwarding to the store; the
    /// registry keeps the identifier, which from now on is inert to
    /// dispatch.
    pub fn remove(&mut self, id: necs::entity::Entity) -> (removed: bool)
        requires
            old(self).wf(),
        ensures
            final(self).wf(),
            removed == old(self).store_view().live().contains(id),
            final(self).registry() == old(self).registry(),
            final(self).store_view().ids() == old(self).store_view().ids(),
            final(self).store_view().kinds() == old(self).store_view().kinds(),
            final(self).store_view().ticks() == old(self).store_view().ticks(),
            final(self).store_view().live() == old(self).store_view().live().remove(id),
            final(self).store_view().slots().len() == old(self).store_view().slots().len(),
            forall|i: int|
                0 <= i < old(self).store_view().slots().len()
                    ==> final(self).store_view().slots()[i] == (if old(self).store_view().ids()[i]
                    == id {
                    None::<NodeSlot>
                } else {
                    old(self).store_view().slots()[i]
                }),
            forall|k: NodeKind|
                final(self).store_view().kind_registered(k) == old(self).store_view()
                    .kind_registered(k),
            forall|k: NodeKind|
                final(self).store_view().adapter_for(k) == old(self).store_view().adapter_for(k),
            removal_rel(*old(self), *final(self), id),
    {
        self.store.remove(id)
    }

    /// The number of identifiers in the processing registry.
    pub fn registry_len(&self) -> (n: usize)
        ensures
            n == self.registry().len(),
    {
        self.process_nodes.len()
    }

    /// Whether an identifier is in the processing registry.
    pub fn registry_contains(&self, id: necs::entity::Entity) -> (b: bool)
        ensures
            b == self.registry().contains(id),
    {
        let n = self.process_nodes.len();
        let mut i: usize = 0;
        while i < n
            invariant
                n == self.process_nodes@.len(),
                0 <= i <= n,
                forall|j: int| 0 <= j < i ==> self.process_nodes@[j] != id,
            decreases n - i,
        {
            if crate::store::entity_eq(&self.process_nodes[i], &id) {
                return true;
            }
            i = i + 1;
        }
        false
    }

    /// The registry's contents, in order, as a fresh vector of identifiers.
    pub fn registry_ids(&self) -> (r: Vec<necs::entity::Entity>)
        ensures
            r@ == self.registry(),
    {
        let n = self.process_nodes.len();
        let mut r: Vec<necs::entity::Entity> = Vec::new();
        let mut i: usize = 0;
        while i < n
            invariant
                n == self.process_nodes@.len(),
                0 <= i <= n,
                r@ == self.process_nodes@.subrange(0, i as int),
            decreases n - i,
        {
            r.push(self.process_nodes[i]);
            proof {
                assert(r@ =~= self.process_nodes@.subrange(0, i as int + 1));
            }
            i = i + 1;
        }
        proof {
            assert(self.process_nodes@.subrange(0, n as int) =~= self.process_nodes@);
        }
        r
    }

    /// Whether an identifier still resolves to a live node, forwarding to
    /// the store.
    pub fn is_live(&self, id: necs::entity::Entity) -> (b: bool)
        requires
            self.wf(),
        ensures
            b == self.store_view().live().contains(id),
    {
        self.store.is_live(id)
    }

    /// Reads the counter of the ticker stored under an identifier.
    pub fn ticker_count(&self, id: necs::entity::Entity) -> (c: Option<u64>)
        requires
            self.wf(),
        ensures
            c == (if exists|i: int|
                0 <= i < self.store_view().slots().len() && self.store_view().ids()[i] == id
                    && self.store_view().slots()[i] matches Some(NodeSlot::Ticker(_)) {
                let i = choose|i: int|
                    0 <= i < self.store_view().slots().len() && self.store_view().ids()[i] == id
                        && self.store_view().slots()[i] matches Some(NodeSlot::Ticker(_));
                Some(self.store_view().slots()[i]->Some_0->Ticker_0.count)
            } else {
                None::<u64>
            }),
    {
        self.store.ticker_count(id)
    }
}

impl Default for World {
    /// The same empty world [`World::new`] builds.
    fn default() -> (w: Self)
        ensures
            w.wf(),
            w.registry().len() == 0,
            w.store_view().ids().len() == 0,
            forall|k: NodeKind| !w.store_view().kind_registered(k),
            forall|k: NodeKind| !w.store_view().adapter_for(k),
    {
        World::new()
    }
}

/// An identifier that was never spawned is never in the registry; in
/// particular the registry never refers to a type that was only registered,
/// never spawned.
pub proof fn lemma_registry_only_spawned(w: World, id: necs::entity::Entity)
    requires
        w.wf(),
        !w.store_view().ids().contains(id),
    ensures
        !w.registry().contains(id),
{
    if w.registry().contains(id) {
        lemma_proc_ids_subset(w.store_view().ids(), w.store_view().kinds(), id);
    }
}

/// A spawn of a node type without the processing capability leaves its fresh
/// identifier out of the registry, so no tick ever dispatches it.
pub proof fn lemma_nonprocessable_spawn_absent(pre: World, post: World, id: necs::entity::Entity)
    requires
        pre.wf(),
        !pre.store_view().ids().contains(id),
        post.registry() == pre.registry(),
    ensures
        !post.registry().contains(id),
{
    lemma_registry_only_spawned(pre, id);
}

/// A spawn of a node type with the processing capability puts its fresh
/// identifier into the registry exactly once, at the end.
pub proof fn lemma_processable_spawn_present_once(
    pre: World,
    post: World,
    id: necs::entity::Entity,
)
    requires
        pre.wf(),
        !pre.store_view().ids().contains(id),
        post.registry() == pre.registry().push(id),
    ensures
        post.registry().last() == id,
        post.registry().to_multiset().count(id) == 1,
{
    broadcast use vstd::seq_lib::group_to_multiset_ensures;

    lemma_registry_only_spawned(pre, id);
    assert(pre.registry().to_multiset().count(id) == 0);
    assert(post.registry().to_multiset() =~= pre.registry().to_multiset().insert(id));
}

/// The tick dispatches the registered identifiers in registry order: the
/// `j`-th dispatch of the walk is the `j`-th registry entry.
pub proof fn lemma_tick_order(pre: World, post: World, j: int)
    requires
        tick_rel(pre, post),
        0 <= j < pre.registry().len(),
    ensures
        post.store_view().ticks()[pre.store_view().ticks().len() + j] == pre.registry()[j],
{
}

/// Two ticks in succession with nothing spawned in between: each call walks
/// the same registry once, in the same order, and each qualifying node
/// advances by exactly one update per call — no accumulation, no skipping.
pub proof fn lemma_tick_twice(w0: World, w1: World, w2: World)
    requires
        tick_rel(w0, w1),
        tick_rel(w1, w2),
    ensures
        w2.registry() == w0.registry(),
        w2.store_view().ticks() == w0.store_view().ticks() + w0.registry() + w0.registry(),
        forall|i: int|
            0 <= i < w0.store_view().slots().len()
                ==> #[trigger] w2.store_view().slots()[i] == (if slot_qualifies(w0, i) {
                ticked_slot(ticked_slot(w0.store_view().slots()[i]))
            } else {
                w0.store_view().slots()[i]
            }),
{
    assert forall|i: int| 0 <= i < w1.store_view().slots().len() implies slot_qualifies(w1, i)
        == slot_qualifies(w0, i) by {
        assert(w1.store_view().slots()[i] == (if slot_qualifies(w0, i) {
            ticked_slot(w0.store_view().slots()[i])
        } else {
            w0.store_view().slots()[i]
        }));
    }
}

/// Resilience: removing a node after it was spawned does not disturb the
/// tick.  The walk still dispatches every registered identifier, the stale
/// one resolves to nothing and is skipped, and every other qualifying node
/// still advances by one update.
pub proof fn lemma_tick_after_removal(w0: World, w1: World, w2: World, id: necs::entity::Entity)
    requires
        removal_rel(w0, w1, id),
        tick_rel(w1, w2),
    ensures
        w2.store_view().ticks() == w0.store_view().ticks() + w0.registry(),
        forall|i: int|
            0 <= i < w0.store_view().slots().len() && w0.store_view().ids()[i] == id
                ==> #[trigger] w2.store_view().slots()[i] is None,
        forall|i: int|
            0 <= i < w0.store_view().slots().len() && w0.store_view().ids()[i] != id
                ==> #[trigger] w2.store_view().slots()[i] == (if slot_qualifies(w0, i) {
                ticked_slot(w0.store_view().slots()[i])
            } else {
                w0.store_view().slots()[i]
            }),
{
    assert forall|i: int|
        0 <= i < w0.store_view().slots().len() && w0.store_view().ids()[i] != id implies w2
        .store_view().slots()[i] == (if slot_qualifies(w0, i) {
        ticked_slot(w0.store_view().slots()[i])
    } else {
        w0.store_view().slots()[i]
    }) by {
        assert(w1.store_view().slots()[i] == w0.store_view().slots()[i]);
        assert(slot_qualifies(w1, i) == slot_qualifies(w0, i));
    }
}

/// Registration without an instance: with an empty registry — as after
/// registering node types but spawning nothing — a tick dispatches nothing
/// and leaves every slot as it stands.
pub proof fn lemma_tick_on_empty_registry(pre: World, post: World)
    requires
        pre.wf(),
        tick_rel(pre, post),
        pre.registry().len() == 0,
    ensures
        post.store_view().ticks() == pre.store_view().ticks(),
        forall|i: int|
            0 <= i < pre.store_view().slots().len()
                ==> #[trigger] post.store_view().slots()[i] == pre.store_view().slots()[i],
{
    assert(pre.store_view().ticks() + pre.registry() =~= pre.store_view().ticks());
    assert forall|i: int|
        0 <= i < pre.store_view().slots().len() implies #[trigger] post.store_view().slots()[i]
        == pre.store_view().slots()[i] by {
        pre.store_view().lemma_ids_distinct();
        pre.store_view().lemma_lens();
        lemma_proc_ids_membership(pre.store_view().ids(), pre.store_view().kinds(), i);
        if kind_processable(pre.store_view().kinds()[i]) {
            assert(pre.registry().contains(pre.store_view().ids()[i]));
        }
        assert(!slot_qualifies(pre, i));
    }
}

} // verus!
