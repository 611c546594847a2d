//! System-level vocabulary shared by backends and socket traits.

use vstd::prelude::*;

verus! {

/// Operating-system interface index.
///
/// Index 0 is the kernel's "no interface" sentinel, so an `IfIndex` is never 0.
#[derive(Clone, Copy, Debug, Eq, Hash, Ord, PartialEq, PartialOrd, Structural)]
pub struct IfIndex(u32);

impl IfIndex {
    /// The raw numeric index.
    pub closed spec fn value(self) -> u32 {
        self.0
    }

    /// The index names a real interface.
    pub open spec fn wf(self) -> bool {
        self.value() != 0
    }

    /// Creates an interface index from its raw numeric value, which must not be 0.
    #[must_use]
    pub fn new(value: u32) -> (r: Self)
        requires
            value != 0,
        ensures
            r.value() == value,
            r.wf(),
    {
        Self(value)
    }

    /// Creates an interface index, returning `None` for the reserved zero.
    #[must_use]
    pub fn try_new(value: u32) -> (r: Option<Self>)
        ensures
            r is None <==> value == 0,
            r matches Some(index) ==> index.value() == value && index.wf(),
    {
        if value == 0 {
            None
        } else {
            Some(Self(value))
        }
    }

    /// Returns the raw numeric interface index.
    #[must_use]
    pub fn get(self) -> (r: u32)
        ensures
            r == self.value(),
    {
        self.0
    }
}

/// Queue identifier within a port, interface, or backend device.
#[derive(Clone, Copy, Debug, Eq, Hash, Ord, PartialEq, PartialOrd, Structural)]
pub struct QueueId(u32);

impl QueueId {
    /// The raw numeric identifier.
    pub closed spec fn value(self) -> u32 {
        self.0
    }

    /// Creates a queue identifier from its raw numeric value.
    #[must_use]
    pub fn new(value: u32) -> (r: Self)
        ensures
            r.value() == value,
    {
        Self(value)
    }

    /// Returns the raw numeric queue identifier.
    #[must_use]
    pub fn get(self) -> (r: u32)
        ensures
            r == self.value(),
    {
        self.0
    }
}

/// Logical identity of a socket.
#[derive(Clone, Copy, Debug, Eq, Hash, Ord, PartialEq, PartialOrd, Structural)]
pub struct SocketId(u32);

impl SocketId {
    /// The raw numeric identity.
    pub closed spec fn value(self) -> u32 {
        self.0
    }

    /// Creates a socket identity from its raw numeric value.
    #[must_use]
    pub fn new(value: u32) -> (r: Self)
        ensures
            r.value() == value,
    {
        Self(value)
    }

    /// Returns the raw numeric socket identity.
    #[must_use]
    pub fn get(self) -> (r: u32)
        ensures
            r == self.value(),
    {
        self.0
    }
}

/// NUMA node identifier.
#[derive(Clone, Copy, Debug, Eq, Hash, Ord, PartialEq, PartialOrd, Structural)]
pub struct NumaNode(u16);

impl NumaNode {
    /// The raw numeric identifier.
    pub closed spec fn value(self) -> u16 {
        self.0
    }

    /// Creates a NUMA node identifier from its raw numeric value.
    #[must_use]
    pub fn new(value: u16) -> (r: Self)
        ensures
            r.value() == value,
    {
        Self(value)
    }

    /// Returns the raw numeric NUMA node identifier.
    #[must_use]
    pub fn get(self) -> (r: u16)
        ensures
            r == self.value(),
    {
        self.0
    }
}

/// CPU affinity hint for a queue.
#[derive(Clone, Copy, Debug, Eq, PartialEq, Structural)]
pub enum QueueAffinity {
    /// No preferred CPU is known.
    Any,
    /// A single preferred CPU core.
    Core(u32),
    /// A compact CPU mask for small systems.
    Mask(u64),
}

/// Hugepage size preference for backends that allocate hugepage-backed memory.
#[derive(Clone, Copy, Debug, Eq, PartialEq, Structural)]
pub enum HugePageSize {
    /// Try hugepages of the system's default size, then regular pages.
    Default,
    /// Skip hugepages and use regular 4 KiB pages.
    Size4K,
    /// Prefer 2 MiB hugepages.
    Size2M,
    /// Prefer 1 GiB hugepages.
    Size1G,
}

impl Default for HugePageSize {
    fn default() -> (r: Self)
        ensures
            r == HugePageSize::Default,
    {
        HugePageSize::Default
    }
}

/// The identifiers give back the numbers that they were made of, and an interface index is
/// never zero.
pub proof fn law_identifiers_keep_their_number(value: u32, small: u16)
    ensures
        forall|index: Option<IfIndex>| #[trigger]
            call_ensures(IfIndex::try_new, (value,), index) ==> (index is None <==> value == 0) && (
            index matches Some(made) ==> made.value() == value),
        forall|made: IfIndex, r: u32|
            #![trigger call_ensures(IfIndex::new, (value,), made), call_ensures(
                IfIndex::get,
                (made,),
                r,
            )]
            call_ensures(IfIndex::new, (value,), made) && call_ensures(IfIndex::get, (made,), r)
                ==> r == value,
        forall|made: QueueId, r: u32|
            #![trigger call_ensures(QueueId::new, (value,), made), call_ensures(
                QueueId::get,
                (made,),
                r,
            )]
            call_ensures(QueueId::new, (value,), made) && call_ensures(QueueId::get, (made,), r)
                ==> r == value,
        forall|made: SocketId, r: u32|
            #![trigger call_ensures(SocketId::new, (value,), made), call_ensures(
                SocketId::get,
                (made,),
                r,
            )]
            call_ensures(SocketId::new, (value,), made) && call_ensures(SocketId::get, (made,), r)
                ==> r == value,
        forall|made: NumaNode, r: u16|
            #![trigger call_ensures(NumaNode::new, (small,), made), call_ensures(
                NumaNode::get,
                (made,),
                r,
            )]
            call_ensures(NumaNode::new, (small,), made) && call_ensures(NumaNode::get, (made,), r)
                ==> r == small,
{
}

} // verus!
