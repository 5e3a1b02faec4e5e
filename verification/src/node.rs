//! Node kinds, the processing capability, and the node types this crate ships.

use vstd::prelude::*;

verus! {

/// The kinds of node the store can hold.  Each node type files itself under
/// exactly one kind, and whether a kind takes part in per-frame processing is
/// a property of the kind alone, never of a node instance.
#[derive(Clone, Copy, PartialEq, Eq, Structural, Debug)]
pub enum NodeKind {
    Idle,
    Ticker,
}

/// Whether a kind takes part in per-frame processing.
pub open spec fn kind_processable(k: NodeKind) -> bool {
    match k {
        NodeKind::Idle => false,
        NodeKind::Ticker => true,
    }
}

/// Executable form of [`kind_processable`]: the one decision the dispatcher
/// makes for a node type, resolved from the type's kind alone.
pub fn kind_is_processable(k: NodeKind) -> (b: bool)
    ensures
        b == kind_processable(k),
{
    match k {
        NodeKind::Idle => false,
        NodeKind::Ticker => true,
    }
}

/// A node with no per-frame behaviour.
#[derive(Clone, Copy, PartialEq, Eq, Structural, Debug)]
pub struct Idle;

/// A node whose update routine advances a counter by one each tick.
#[derive(Clone, Copy, PartialEq, Eq, Structural, Debug)]
pub struct Ticker {
    pub count: u64,
}

/// One stored node value, filed under its kind.
#[derive(Clone, Copy, PartialEq, Eq, Structural, Debug)]
pub enum NodeSlot {
    Idle(Idle),
    Ticker(Ticker),
}

/// The kind a slot is filed under.
pub open spec fn slot_kind(s: NodeSlot) -> NodeKind {
    match s {
        NodeSlot::Idle(_) => NodeKind::Idle,
        NodeSlot::Ticker(_) => NodeKind::Ticker,
    }
}

/// A counter advance that wraps at the top of the `u64` range.
pub open spec fn wrap_inc(c: u64) -> u64 {
    if c == u64::MAX {
        0
    } else {
        (c + 1) as u64
    }
}

/// What one update pass does to a stored slot: a ticker's counter advances,
/// anything else is left as it stands.
pub open spec fn ticked_slot(s: Option<NodeSlot>) -> Option<NodeSlot> {
    match s {
        Some(NodeSlot::Ticker(t)) => Some(NodeSlot::Ticker(Ticker { count: wrap_inc(t.count) })),
        _ => s,
    }
}

/// The base capability every node type has: it names its kind and can be
/// filed into a store slot.  The kind is a per-type constant, so the spawn
/// path costs the same whatever the number of node types.
pub trait Node: Sized {
    /// The kind this type files under: a static, per-type decision.
    spec fn kind() -> NodeKind;

    /// Executable form of [`Node::kind`].
    fn kind_of() -> (k: NodeKind)
        ensures
            k == Self::kind(),
    ;

    /// The slot a value of this type is stored as.
    spec fn slot_of(self) -> NodeSlot;

    /// Files this value into a slot of its own kind.
    fn into_slot(self) -> (s: NodeSlot)
        ensures
            s == self.slot_of(),
            slot_kind(s) == Self::kind(),
    ;
}

/// The processing capability: node types that implement it are picked up
/// automatically at spawn and registration time.  Implementing it obliges the
/// type to file under a processable kind, so the capability always wins over
/// the default path and no instance-level tag is ever consulted.
pub trait Process: Node {
    /// Implementing the capability forces the type's kind to be processable.
    proof fn processable_marked()
        ensures
            kind_processable(Self::kind()),
    ;

    /// The per-type statement of what one update call does.
    spec fn process_ens(pre: Self, post: Self) -> bool;

    /// The per-frame update routine.
    fn process(&mut self)
        ensures
            Self::process_ens(*old(self), *final(self)),
    ;
}

impl Node for Idle {
    open spec fn kind() -> NodeKind {
        NodeKind::Idle
    }

    fn kind_of() -> (k: NodeKind) {
        NodeKind::Idle
    }

    open spec fn slot_of(self) -> NodeSlot {
        NodeSlot::Idle(self)
    }

    fn into_slot(self) -> (s: NodeSlot) {
        NodeSlot::Idle(self)
    }
}

impl Node for Ticker {
    open spec fn kind() -> NodeKind {
        NodeKind::Ticker
    }

    fn kind_of() -> (k: NodeKind) {
        NodeKind::Ticker
    }

    open spec fn slot_of(self) -> NodeSlot {
        NodeSlot::Ticker(self)
    }

    fn into_slot(self) -> (s: NodeSlot) {
        NodeSlot::Ticker(self)
    }
}

impl Process for Ticker {
    proof fn processable_marked() {
    }

    open spec fn process_ens(pre: Self, post: Self) -> bool {
        post.count == wrap_inc(pre.count)
    }

    fn process(&mut self) {
        if self.count == u64::MAX {
            self.count = 0;
        } else {
            self.count = self.count + 1;
        }
    }
}

/// Every type with the processing capability files under a processable kind:
/// the override rule of the dispatcher, stated once for all such types.
pub proof fn lemma_process_kind_processable<T: Process>()
    ensures
        kind_processable(T::kind()),
{
    T::processable_marked();
}

} // verus!
