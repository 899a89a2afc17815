//! Sector sizes, counted in Merkle leaves.

use vstd::prelude::*;

verus! {

/// The size of a Merkle leaf in bytes.
pub const NODE_SIZE: usize = 32;

/// The leaves of a 2 KiB sector.
pub const SECTOR_NODES_2_KIB: usize = 64;

/// The leaves of a 4 KiB sector.
pub const SECTOR_NODES_4_KIB: usize = 128;

/// The leaves of a 16 KiB sector.
pub const SECTOR_NODES_16_KIB: usize = 512;

/// The leaves of a 32 KiB sector.
pub const SECTOR_NODES_32_KIB: usize = 1024;

/// The leaves of a 512 MiB sector.
pub const SECTOR_NODES_512_MIB: usize = 16777216;

/// The leaves of a 32 GiB sector.
pub const SECTOR_NODES_32_GIB: usize = 1073741824;

/// The leaves of a 64 GiB sector.
pub const SECTOR_NODES_64_GIB: usize = 2147483648;

} // verus!
