//! Asset identifiers and the continuity priorities that the texture cache
//! and the request planner assign to them.
use vstd::prelude::*;

verus! {

/// An asset's identifier (usually a UUID); the empty identifier names no asset.
#[derive(Debug, Clone)]
pub struct AssetID(pub String);

impl View for AssetID {
    type V = Seq<char>;

    open spec fn view(&self) -> Seq<char> {
        self.0@
    }
}

impl AssetID {
    pub fn new(id: &str) -> (r: AssetID)
        ensures
            r@ == id@,
    {
        AssetID(id.to_owned())
    }

    pub fn is_empty(&self) -> (b: bool)
        ensures
            b == (self@.len() == 0),
    {
        self.0.as_str().is_empty()
    }

    pub fn as_str(&self) -> (s: &str)
        ensures
            s@ == self@,
    {
        self.0.as_str()
    }

    /// Whether the two identifiers hold the same text.
    pub fn same_as(&self, other: &AssetID) -> (b: bool)
        ensures
            b == (self@ == other@),
    {
        self.0 == other.0
    }
}

impl Default for AssetID {
    fn default() -> (r: AssetID)
        ensures
            r@ == Seq::<char>::empty(),
    {
        AssetID(String::new())
    }
}

/// Priority of an asset for the continuity cache, highest first:
/// the active region, the previous region, a neighbor region, then the rest.
#[derive(Debug, Clone, Copy, PartialEq, Eq, Structural)]
pub enum AssetPriority {
    Active,
    Previous,
    Neighbor,
    Normal,
}

impl AssetPriority {
    /// The rank used for ordering: `Active` is 0 and `Normal` is 3.
    pub open spec fn spec_rank(self) -> u8 {
        match self {
            AssetPriority::Active => 0,
            AssetPriority::Previous => 1,
            AssetPriority::Neighbor => 2,
            AssetPriority::Normal => 3,
        }
    }

    pub fn rank(self) -> (r: u8)
        ensures
            r == self.spec_rank(),
    {
        match self {
            AssetPriority::Active => 0,
            AssetPriority::Previous => 1,
            AssetPriority::Neighbor => 2,
            AssetPriority::Normal => 3,
        }
    }
}

} // verus!
