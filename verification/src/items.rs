use vstd::prelude::*;

verus! {

/// A single unit of work to be packed, identified only by its size.
///
/// Items carry no identity beyond their size: two items of equal size
/// are interchangeable.
#[derive(Debug, PartialEq, Eq, PartialOrd, Ord, Copy, Clone, Structural)]
pub struct Item {
    pub size: u32,
}

impl Item {
    /// The combined size of this item and another.
    pub fn add(self, other: Item) -> (total: u32)
        requires
            self.size + other.size <= u32::MAX,
        ensures
            total == self.size + other.size,
    {
        self.size + other.size
    }
}

/// A container holding the items assigned to it, in the order they were
/// placed. A bin is created empty, only appended to while it is being
/// filled, and never touched again once sealed.
#[derive(Debug, PartialEq)]
pub struct Bin {
    pub contents: Vec<Item>,
}

impl View for Bin {
    type V = Seq<Item>;

    open spec fn view(&self) -> Seq<Item> {
        self.contents@
    }
}

impl Bin {
    /// Constructs a new empty `Bin`.
    pub fn new() -> (bin: Bin)
        ensures
            bin@ == Seq::<Item>::empty(),
    {
        Bin { contents: Vec::new() }
    }
}

/// The one failure of packing: the configured bin capacity is smaller
/// than the largest item handed in, so no assignment can exist.
#[derive(Debug, PartialEq, Eq, Copy, Clone)]
pub enum PackError {
    CapacityViolation,
}

impl PackError {
    /// A human-readable description of the failure.
    pub fn message(&self) -> (text: &'static str)
        ensures
            text@ == "Bin size must be larger than max value."@,
    {
        "Bin size must be larger than max value."
    }
}

} // verus!
