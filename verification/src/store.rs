//! The node store: entity identifiers come from `necs`, node values and the
//! per-kind capability registrations are kept here.

use vstd::prelude::*;

use crate::node::{kind_processable, slot_kind, ticked_slot, NodeKind, NodeSlot, Process};

verus! {

#[verifier::external_type_specification]
#[verifier::external_body]
pub struct ExEntity(necs::entity::Entity);

#[verifier::external_type_specification]
#[verifier::external_body]
pub struct ExEntityStore(necs::entity::EntityStore);

/// Every entity handle the store has ever issued, in order of issue.
pub uninterp spec fn issued_of(s: necs::entity::EntityStore) -> Seq<necs::entity::Entity>;

/// The issued entity handles that are currently alive.
pub uninterp spec fn alive_of(s: necs::entity::EntityStore) -> Set<necs::entity::Entity>;

/// Relies on necs::entity::EntityStore::new: a store that has issued
/// nothing and holds nothing alive.
#[verifier::external_body]
fn entities_new() -> (s: necs::entity::EntityStore)
    ensures
        issued_of(s) == Seq::<necs::entity::Entity>::empty(),
        alive_of(s) == Set::<necs::entity::Entity>::empty(),
{
    necs::entity::EntityStore::new()
}

/// Relies on necs::entity::EntityStore::spawn: identifiers are generational, so the
/// returned handle differs from every handle issued before (a recycled index
/// comes back under a generation no earlier handle carried), and it is alive
/// once returned.  Liveness of other issued handles is untouched.
#[verifier::external_body]
fn entities_spawn(s: &mut necs::entity::EntityStore) -> (e: necs::entity::Entity)
    ensures
        !issued_of(*old(s)).contains(e),
        issued_of(*final(s)) == issued_of(*old(s)).push(e),
        alive_of(*final(s)) == alive_of(*old(s)).insert(e),
{
    s.spawn()
}

/// Relies on necs::entity::EntityStore::despawn: an alive handle is retired (its
/// index goes back to the free list under a bumped generation) and the call
/// reports whether the handle was alive.  Only ever called on issued handles:
/// despawning a handle the store never issued could corrupt its free list.
#[verifier::external_body]
fn entities_despawn(s: &mut necs::entity::EntityStore, e: necs::entity::Entity) -> (was_alive: bool)
    requires
        issued_of(*old(s)).contains(e),
    ensures
        was_alive == alive_of(*old(s)).contains(e),
        alive_of(*final(s)) == alive_of(*old(s)).remove(e),
        issued_of(*final(s)) == issued_of(*old(s)),
{
    s.despawn(e)
}

/// Relies on necs::entity::EntityStore::is_alive: for an issued handle it reports
/// whether the handle's generation is the current one, that is, liveness.
#[verifier::external_body]
fn entities_is_alive(s: &necs::entity::EntityStore, e: necs::entity::Entity) -> (b: bool)
    ensures
        issued_of(*s).contains(e) ==> b == alive_of(*s).contains(e),
{
    s.is_alive(e)
}

/// Relies on necs::entity::Entity's derived PartialEq: two handles are equal exactly
/// when they are the same identifier (same index and generation).
#[verifier::external_body]
pub(crate) fn entity_eq(a: &necs::entity::Entity, b: &necs::entity::Entity) -> (r: bool)
    ensures
        r == (a == b),
{
    a == b
}

/// Appending a value a sequence does not hold keeps its entries distinct.
pub(crate) proof fn lemma_push_keeps_distinct<A>(s: Seq<A>, x: A)
    requires
        s.no_duplicates(),
        !s.contains(x),
    ensures
        s.push(x).no_duplicates(),
{
    let t = s.push(x);
    assert forall|i: int, j: int|
        0 <= i < t.len() && 0 <= j < t.len() && i != j implies t[i] != t[j] by {
        if i == s.len() {
            if t[j] == x {
                assert(s[j] == x);
                assert(s.contains(x));
            }
        } else if j == s.len() {
            if t[i] == x {
                assert(s[i] == x);
                assert(s.contains(x));
            }
        }
    }
}

/// The store the facade delegates to: identifiers from `necs`, node values in
/// slots, and the per-kind registrations the dispatcher decides on.
pub struct NodeStore {
    entities: necs::entity::EntityStore,
    ids: Vec<necs::entity::Entity>,
    slots: Vec<Option<NodeSlot>>,
    kinds: Ghost<Seq<NodeKind>>,
    ticks: Ghost<Seq<necs::entity::Entity>>,
    idle_registered: bool,
    ticker_registered: bool,
    ticker_adapter: bool,
}

impl NodeStore {
    /// The identifiers this store has handed out, in spawn order.
    pub closed spec fn ids(self) -> Seq<necs::entity::Entity> {
        self.ids@
    }

    /// The stored node values, one slot per spawn, `None` once removed.
    pub closed spec fn slots(self) -> Seq<Option<NodeSlot>> {
        self.slots@
    }

    /// The kind each spawn was filed under, fixed at spawn time.
    pub closed spec fn kinds(self) -> Seq<NodeKind> {
        self.kinds@
    }

    /// The identifiers handed to [`NodeStore::dispatch`], in call order.
    pub closed spec fn ticks(self) -> Seq<necs::entity::Entity> {
        self.ticks@
    }

    /// The identifiers currently alive in the underlying entity store.
    pub closed spec fn live(self) -> Set<necs::entity::Entity> {
        alive_of(self.entities)
    }

    /// Whether a kind has had its base registration.
    pub closed spec fn kind_registered(self, k: NodeKind) -> bool {
        match k {
            NodeKind::Idle => self.idle_registered,
            NodeKind::Ticker => self.ticker_registered,
        }
    }

    /// Whether a kind has an adapter registered under the processing
    /// interface; only processable kinds ever get one.
    pub closed spec fn adapter_for(self, k: NodeKind) -> bool {
        match k {
            NodeKind::Idle => false,
            NodeKind::Ticker => self.ticker_adapter,
        }
    }

    /// The store's internal coherence: slots, kinds and identifiers run in
    /// parallel; identifiers are distinct and were all issued by the entity
    /// store; a slot holds a value exactly while its identifier is alive; and
    /// a held value is of the kind its spawn was filed under.
    pub closed spec fn wf(self) -> bool {
        &&& self.slots@.len() == self.ids@.len()
        &&& self.kinds@.len() == self.ids@.len()
        &&& self.ids@.no_duplicates()
        &&& issued_of(self.entities).no_duplicates()
        &&& forall|i: int|
            0 <= i < self.ids@.len() ==> issued_of(self.entities).contains(#[trigger] self.ids@[i])
        &&& forall|i: int|
            0 <= i < self.ids@.len()
                ==> (alive_of(self.entities).contains(self.ids@[i]) <==> (#[trigger] self.slots@[i]) is Some)
        &&& forall|e: necs::entity::Entity|
            #[trigger] alive_of(self.entities).contains(e) ==> self.ids@.contains(e)
        &&& forall|i: int|
            0 <= i < self.slots@.len() ==> ((#[trigger] self.slots@[i]) matches Some(s)
                ==> slot_kind(s) == self.kinds@[i])
    }

    /// The identifiers are distinct: no spawn ever repeats one.
    pub proof fn lemma_ids_distinct(self)
        requires
            self.wf(),
        ensures
            self.ids().no_duplicates(),
    {
    }

    /// Slots and kinds run in parallel with the identifiers.
    pub proof fn lemma_lens(self)
        requires
            self.wf(),
        ensures
            self.slots().len() == self.ids().len(),
            self.kinds().len() == self.ids().len(),
    {
    }

    /// An empty store.
    pub fn new() -> (s: NodeStore)
        ensures
            s.wf(),
            s.ids().len() == 0,
            s.slots().len() == 0,
            s.kinds().len() == 0,
            s.ticks().len() == 0,
            s.live() == Set::<necs::entity::Entity>::empty(),
            forall|k: NodeKind| !s.kind_registered(k),
            forall|k: NodeKind| !s.adapter_for(k),
    {
        NodeStore {
            entities: entities_new(),
            ids: Vec::new(),
            slots: Vec::new(),
            kinds: Ghost(Seq::empty()),
            ticks: Ghost(Seq::empty()),
            idle_registered: false,
            ticker_registered: false,
            ticker_adapter: false,
        }
    }

    /// Stores a node value under a fresh identifier and returns it.
    pub fn insert(&mut self, slot: NodeSlot) -> (e: necs::entity::Entity)
        requires
            old(self).wf(),
        ensures
            final(self).wf(),
            !old(self).ids().contains(e),
            final(self).ids() == old(self).ids().push(e),
            final(self).slots() == old(self).slots().push(Some(slot)),
            final(self).kinds() == old(self).kinds().push(slot_kind(slot)),
            final(self).ticks() == old(self).ticks(),
            final(self).live() == old(self).live().insert(e),
            forall|k: NodeKind| final(self).kind_registered(k) == old(self).kind_registered(k),
            forall|k: NodeKind| final(self).adapter_for(k) == old(self).adapter_for(k),
    {
        let e = entities_spawn(&mut self.entities);
        proof {
            assert forall|i: int| 0 <= i < self.ids@.len() implies self.ids@[i] != e by {
                assert(issued_of(old(self).entities).contains(self.ids@[i]));
            }
            assert(!self.ids@.contains(e));
        }
        self.ids.push(e);
        self.slots.push(Some(slot));
        proof {
            self.kinds@ = self.kinds@.push(slot_kind(slot));
            broadcast use vstd::seq_lib::group_seq_properties;

            lemma_push_keeps_distinct(old(self).ids@, e);
            lemma_push_keeps_distinct(issued_of(old(self).entities), e);
            assert forall|i: int|
                0 <= i < self.ids@.len() implies issued_of(self.entities).contains(
                #[trigger] self.ids@[i],
            ) by {
                if i < old(self).ids@.len() {
                    assert(issued_of(old(self).entities).contains(old(self).ids@[i]));
                } else {
                    assert(self.ids@[i] == e);
                }
            }
            assert forall|ee: necs::entity::Entity|
                #[trigger] alive_of(self.entities).contains(ee) implies self.ids@.contains(
                ee,
            ) by {
                if ee == e {
                    assert(self.ids@[old(self).ids@.len() as int] == e);
                } else {
                    assert(alive_of(old(self).entities).contains(ee));
                    assert(old(self).ids@.contains(ee));
                }
            }
        }
        e
    }

    /// Removes the node under an identifier, if it is still there; reports
    /// whether anything was removed.  The identifier itself stays valid to
    /// hand around; it simply no longer resolves.
    pub fn remove(&mut self, e: necs::entity::Entity) -> (removed: bool)
        requires
            old(self).wf(),
        ensures
            final(self).wf(),
            removed == old(self).live().contains(e),
            final(self).live() == old(self).live().remove(e),
            final(self).ids() == old(self).ids(),
            final(self).kinds() == old(self).kinds(),
            final(self).ticks() == old(self).ticks(),
            forall|i: int|
                0 <= i < old(self).slots().len()
                    ==> final(self).slots()[i] == (if old(self).ids()[i] == e {
                        None::<NodeSlot>
                    } else {
                        old(self).slots()[i]
                    }),
            final(self).slots().len() == old(self).slots().len(),
            forall|k: NodeKind| final(self).kind_registered(k) == old(self).kind_registered(k),
            forall|k: NodeKind| final(self).adapter_for(k) == old(self).adapter_for(k),
    {
        let found = self.find(&e);
        match found {
            None => {
                proof {
                    if alive_of(self.entities).contains(e) {
                        assert(self.ids@.contains(e));
                    }
                    assert(old(self).live().remove(e) =~= old(self).live());
                }
                false
            },
            Some(i) => {
                let was_alive = entities_despawn(&mut self.entities, e);
                self.slots[i] = None;
                proof {
                    assert forall|j: int|
                        0 <= j < self.ids@.len() && j != i implies self.ids@[j] != e by {
                        assert(old(self).ids().no_duplicates());
                    }
                }
                was_alive
            },
        }
    }

    /// Records the base registration of a kind.
    pub fn register_kind(&mut self, k: NodeKind)
        requires
            old(self).wf(),
        ensures
            final(self).wf(),
            forall|j: NodeKind|
                final(self).kind_registered(j) == (old(self).kind_registered(j) || j == k),
            forall|j: NodeKind| final(self).adapter_for(j) == old(self).adapter_for(j),
            final(self).ids() == old(self).ids(),
            final(self).slots() == old(self).slots(),
            final(self).kinds() == old(self).kinds(),
            final(self).ticks() == old(self).ticks(),
            final(self).live() == old(self).live(),
    {
        match k {
            NodeKind::Idle => {
                self.idle_registered = true;
            },
            NodeKind::Ticker => {
                self.ticker_registered = true;
            },
        }
    }

    /// Registers the adapter that lets nodes of a processable kind be
    /// resolved under the processing interface.
    pub fn register_adapter(&mut self, k: NodeKind)
        requires
            old(self).wf(),
            kind_processable(k),
        ensures
            final(self).wf(),
            forall|j: NodeKind| final(self).adapter_for(j) == (old(self).adapter_for(j) || j == k),
            forall|j: NodeKind| final(self).kind_registered(j) == old(self).kind_registered(j),
            final(self).ids() == old(self).ids(),
            final(self).slots() == old(self).slots(),
            final(self).kinds() == old(self).kinds(),
            final(self).ticks() == old(self).ticks(),
            final(self).live() == old(self).live(),
    {
        match k {
            NodeKind::Idle => {
            },
            NodeKind::Ticker => {
                self.ticker_adapter = true;
            },
        }
    }

    /// Looks an identifier up and, when it resolves to a live node of a kind
    /// with a registered processing adapter, runs that node's update routine
    /// once.  A stale or unknown identifier is inert: the call still returns,
    /// reporting whether a routine ran.
    pub fn dispatch(&mut self, e: necs::entity::Entity) -> (hit: bool)
        requires
            old(self).wf(),
        ensures
            final(self).wf(),
            final(self).ticks() == old(self).ticks().push(e),
            final(self).ids() == old(self).ids(),
            final(self).kinds() == old(self).kinds(),
            final(self).live() == old(self).live(),
            forall|k: NodeKind| final(self).kind_registered(k) == old(self).kind_registered(k),
            forall|k: NodeKind| final(self).adapter_for(k) == old(self).adapter_for(k),
            final(self).slots().len() == old(self).slots().len(),
            forall|i: int|
                0 <= i < old(self).slots().len()
                    ==> final(self).slots()[i] == (if old(self).ids()[i] == e
                        && old(self).adapter_for(old(self).kinds()[i]) && old(self).slots()[i] is Some {
                        ticked_slot(old(self).slots()[i])
                    } else {
                        old(self).slots()[i]
                    }),
            hit == (exists|i: int|
                0 <= i < old(self).slots().len() && old(self).ids()[i] == e
                    && old(self).adapter_for(old(self).kinds()[i]) && old(self).slots()[i] is Some),
    {
        proof {
            self.ticks@ = self.ticks@.push(e);
        }
        let found = self.find(&e);
        match found {
            None => {
                false
            },
            Some(i) => {
                proof {
                    assert forall|j: int|
                        0 <= j < self.ids@.len() && j != i implies self.ids@[j] != e by {
                        assert(old(self).ids().no_duplicates());
                    }
                }
                let alive = entities_is_alive(&self.entities, e);
                if !alive {
                    false
                } else {
                    let slot = self.slots[i];
                    match slot {
                        Some(NodeSlot::Ticker(mut t)) => {
                            if self.ticker_adapter {
                                t.process();
                                self.slots[i] = Some(NodeSlot::Ticker(t));
                                true
                            } else {
                                false
                            }
                        },
                        Some(NodeSlot::Idle(_)) => {
                            false
                        },
                        None => {
                            false
                        },
                    }
                }
            },
        }
    }

    /// Reads the counter of the ticker stored under an identifier, if that
    /// identifier still resolves to a ticker.
    pub fn ticker_count(&self, e: necs::entity::Entity) -> (c: Option<u64>)
        requires
            self.wf(),
        ensures
            c == (if exists|i: int|
                0 <= i < self.slots().len() && self.ids()[i] == e
                    && self.slots()[i] matches Some(NodeSlot::Ticker(_)) {
                let i = choose|i: int|
                    0 <= i < self.slots().len() && self.ids()[i] == e
                        && self.slots()[i] matches Some(NodeSlot::Ticker(_));
                Some(self.slots()[i]->Some_0->Ticker_0.count)
            } else {
                None::<u64>
            }),
    {
        let found = self.find(&e);
        match found {
            None => None,
            Some(i) => {
                proof {
                    assert forall|j: int|
                        0 <= j < self.ids@.len() && j != i implies self.ids@[j] != e by {
                        assert(self.ids@.no_duplicates());
                    }
                }
                match self.slots[i] {
                    Some(NodeSlot::Ticker(t)) => Some(t.count),
                    _ => None,
                }
            },
        }
    }

    /// Whether an identifier currently resolves to a live node.
    pub fn is_live(&self, e: necs::entity::Entity) -> (b: bool)
        requires
            self.wf(),
        ensures
            b == self.live().contains(e),
    {
        let found = self.find(&e);
        match found {
            None => {
                proof {
                    if alive_of(self.entities).contains(e) {
                        assert(self.ids@.contains(e));
                    }
                }
                false
            },
            Some(_) => entities_is_alive(&self.entities, e),
        }
    }

    /// Linear scan for the slot index of an identifier.
    fn find(&self, e: &necs::entity::Entity) -> (r: Option<usize>)
        ensures
            match r {
                Some(i) => 0 <= i < self.ids().len() && self.ids()[i as int] == *e,
                None => !self.ids().contains(*e),
            },
    {
        let n = self.ids.len();
        let mut i: usize = 0;
        while i < n
            invariant
                n == self.ids@.len(),
                0 <= i <= n,
                forall|j: int| 0 <= j < i ==> self.ids@[j] != *e,
            decreases n - i,
        {
            if entity_eq(&self.ids[i], e) {
                return Some(i);
            }
            i = i + 1;
        }
        None
    }
}

} // verus!
