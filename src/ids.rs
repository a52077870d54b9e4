//! Identifiers of nodes, edges and sources: 256-bit values compared by value.
use vstd::prelude::*;

verus! {

broadcast use vstd::array::group_array_axioms;

/// Compares two 256-bit values byte by byte.
pub fn same_bytes(a: &[u8; 32], b: &[u8; 32]) -> (r: bool)
    ensures
        r == (*a == *b),
{
    let mut i: usize = 0;
    while i < 32
        invariant
            0 <= i <= 32,
            forall|j: int| 0 <= j < i ==> a@[j] == b@[j],
        decreases 32 - i,
    {
        if a[i] != b[i] {
            assert(a@[i as int] != b@[i as int]);
            return false;
        }
        i = i + 1;
    }
    assert(*a =~= *b);
    true
}

/// The identifier of a node.
#[derive(Clone, Copy, Eq, Hash, Debug)]
pub struct NodeID(pub [u8; 32]);

impl PartialEq for NodeID {
    fn eq(&self, o: &NodeID) -> (r: bool) {
        same_bytes(&self.0, &o.0)
    }
}

impl vstd::std_specs::cmp::PartialEqSpecImpl for NodeID {
    open spec fn obeys_eq_spec() -> bool {
        true
    }

    open spec fn eq_spec(&self, o: &NodeID) -> bool {
        self.0 == o.0
    }
}

/// Relies on flarch's `U256::rnd`, which draws 256 random bits; nothing is
/// known of the value.
#[verifier::external_body]
fn random_u256() -> (r: [u8; 32]) {
    flarch::nodeids::U256::rnd().to_bytes()
}

impl NodeID {
    /// A fresh random identifier.
    pub fn rnd() -> (r: NodeID) {
        NodeID(random_u256())
    }

    /// The all-zero identifier.
    pub fn zero() -> (r: NodeID)
        ensures
            forall|i: int| 0 <= i < 32 ==> r.0[i] == 0,
    {
        NodeID([0u8; 32])
    }
}

/// The identifier of an edge.
#[derive(Clone, Copy, Eq, Hash, Debug)]
pub struct EdgeID(pub [u8; 32]);

impl PartialEq for EdgeID {
    fn eq(&self, o: &EdgeID) -> (r: bool) {
        same_bytes(&self.0, &o.0)
    }
}

impl vstd::std_specs::cmp::PartialEqSpecImpl for EdgeID {
    open spec fn obeys_eq_spec() -> bool {
        true
    }

    open spec fn eq_spec(&self, o: &EdgeID) -> bool {
        self.0 == o.0
    }
}

impl EdgeID {
    /// A fresh random identifier.
    pub fn rnd() -> (r: EdgeID) {
        EdgeID(random_u256())
    }

    /// The all-zero identifier.
    pub fn zero() -> (r: EdgeID)
        ensures
            forall|i: int| 0 <= i < 32 ==> r.0[i] == 0,
    {
        EdgeID([0u8; 32])
    }
}

/// The identifier of a source.
#[derive(Clone, Copy, Eq, Hash, Debug)]
pub struct SourceID(pub [u8; 32]);

impl PartialEq for SourceID {
    fn eq(&self, o: &SourceID) -> (r: bool) {
        same_bytes(&self.0, &o.0)
    }
}

impl vstd::std_specs::cmp::PartialEqSpecImpl for SourceID {
    open spec fn obeys_eq_spec() -> bool {
        true
    }

    open spec fn eq_spec(&self, o: &SourceID) -> bool {
        self.0 == o.0
    }
}

impl SourceID {
    /// A fresh random identifier.
    pub fn rnd() -> (r: SourceID) {
        SourceID(random_u256())
    }

    /// The all-zero identifier.
    pub fn zero() -> (r: SourceID)
        ensures
            forall|i: int| 0 <= i < 32 ==> r.0[i] == 0,
    {
        SourceID([0u8; 32])
    }
}

} // verus!
