//! What a provider offers: machine sizes and their properties.

use vstd::prelude::*;

pub mod azure;

verus! {

/// The hardware of a machine size that a provider offers.
pub trait VmHardwareProperties {
    /// The name of the size.
    spec fn name_spec(&self) -> Seq<char>;

    /// Cores, memory in gigabytes, most data disks, and most gigabytes on a
    /// disk.
    spec fn figures(&self) -> (usize, usize, usize, usize);

    /// The name of the size.
    fn name(&self) -> (r: String)
        ensures
            r@ == self.name_spec(),
    ;

    /// Number of cores.
    fn core_count(&self) -> (r: usize)
        ensures
            r == self.figures().0,
    ;

    /// Memory in gigabytes.
    fn ram_gb(&self) -> (r: usize)
        ensures
            r == self.figures().1,
    ;

    /// The most data disks that can be attached.
    fn max_disk_count(&self) -> (r: usize)
        ensures
            r == self.figures().2,
    ;

    /// The most gigabytes that a disk can have.
    fn max_disk_capacity_gb(&self) -> (r: usize)
        ensures
            r == self.figures().3,
    ;
}

} // verus!
