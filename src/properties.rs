//! Physical properties.
use vstd::prelude::*;
use crate::operator::{Operator, OperatorV};

verus! {

#[derive(Clone, Copy, Debug, PartialEq, Eq, Structural)]
pub enum Distribution {
    /// No requirement on how rows are spread.
    Any,
    /// All rows in one partition.
    SinglePartition,
}

/// Required or delivered physical properties.
#[derive(Clone, Copy, Debug, PartialEq, Eq, Structural)]
pub struct PhysicalPropertySet {
    pub distribution: Distribution,
}

/// Whether `delivered` meets `required`.
pub open spec fn satisfies(delivered: PhysicalPropertySet, required: PhysicalPropertySet) -> bool {
    required.distribution is Any || delivered == required
}

/// What a physical operator delivers: none of the operators here gathers its
/// rows into one partition.
pub open spec fn delivered_by(op: OperatorV) -> PhysicalPropertySet {
    PhysicalPropertySet { distribution: Distribution::Any }
}

impl PhysicalPropertySet {
    pub open spec fn any_spec() -> PhysicalPropertySet {
        PhysicalPropertySet { distribution: Distribution::Any }
    }

    pub open spec fn single_spec() -> PhysicalPropertySet {
        PhysicalPropertySet { distribution: Distribution::SinglePartition }
    }

    pub fn any() -> (r: PhysicalPropertySet)
        ensures
            r.distribution == Distribution::Any,
    {
        PhysicalPropertySet { distribution: Distribution::Any }
    }

    pub fn single_partition() -> (r: PhysicalPropertySet)
        ensures
            r.distribution == Distribution::SinglePartition,
    {
        PhysicalPropertySet { distribution: Distribution::SinglePartition }
    }

    /// Whether `self`, delivered, meets `required`.
    pub fn satisfies(&self, required: &PhysicalPropertySet) -> (r: bool)
        ensures
            r == satisfies(*self, *required),
    {
        match required.distribution {
            Distribution::Any => true,
            Distribution::SinglePartition => self.distribution == Distribution::SinglePartition,
        }
    }
}

impl Default for PhysicalPropertySet {
    fn default() -> (r: PhysicalPropertySet)
        ensures
            r.distribution == Distribution::Any,
    {
        PhysicalPropertySet { distribution: Distribution::Any }
    }
}

/// What the physical operator `op` delivers.
pub fn delivered_properties(op: &Operator) -> (r: PhysicalPropertySet)
    ensures
        r == delivered_by(op.view()),
{
    PhysicalPropertySet { distribution: Distribution::Any }
}

} // verus!
