//! How a prover's sector set is cut into partitions. Every partition has the
//! same number of slots; the slots that the set leaves free in its last
//! partition repeat the set's last sector.

use crate::sector::{SECTOR_NODES_32_GIB, SECTOR_NODES_64_GIB};
use vstd::prelude::*;

verus! {

/// Whether the production sector sizes use as many partitions as the
/// pairing-based proofs do.
pub const GROTH16_PARTITIONING: bool = false;

/// The number of challenged sectors per partition.
pub open spec fn spec_sectors_challenged_per_partition(sector_nodes: usize) -> usize {
    if GROTH16_PARTITIONING {
        if sector_nodes == SECTOR_NODES_32_GIB {
            2349
        } else if sector_nodes == SECTOR_NODES_64_GIB {
            2300
        } else {
            2
        }
    } else {
        1
    }
}

/// The number of challenged sectors per partition.
#[verifier::when_used_as_spec(spec_sectors_challenged_per_partition)]
pub fn sectors_challenged_per_partition(sector_nodes: usize) -> (sectors: usize)
    ensures
        sectors == spec_sectors_challenged_per_partition(sector_nodes),
        1 <= sectors <= 2349,
{
    if GROTH16_PARTITIONING {
        if sector_nodes == SECTOR_NODES_32_GIB {
            2349
        } else if sector_nodes == SECTOR_NODES_64_GIB {
            2300
        } else {
            2
        }
    } else {
        1
    }
}

/// The number of partitions of `partition_sectors` slots each that hold
/// `num_sectors` sectors: the quotient, rounded up.
pub open spec fn partitions_needed(num_sectors: nat, partition_sectors: nat) -> nat
    recommends
        partition_sectors > 0,
{
    if num_sectors % partition_sectors == 0 {
        num_sectors / partition_sectors
    } else {
        num_sectors / partition_sectors + 1
    }
}

/// The partitions needed are the least number whose slots hold every sector.
pub proof fn lemma_partitions_needed_is_least(num_sectors: nat, partition_sectors: nat)
    requires
        partition_sectors > 0,
    ensures
        partitions_needed(num_sectors, partition_sectors) * partition_sectors >= num_sectors,
        num_sectors > 0 ==> (partitions_needed(num_sectors, partition_sectors) - 1)
            * partition_sectors < num_sectors,
        num_sectors == 0 ==> partitions_needed(num_sectors, partition_sectors) == 0,
        partitions_needed(num_sectors, partition_sectors) <= num_sectors,
{
    let n = num_sectors as int;
    let p = partition_sectors as int;
    vstd::arithmetic::div_mod::lemma_fundamental_div_mod(n, p);
    let q = n / p;
    let r = n % p;
    assert(0 <= r < p);
    assert(n == p * q + r);
    assert(q >= 0) by (nonlinear_arith)
        requires
            n == p * q + r,
            0 <= r < p,
            n >= 0,
    ;
    assert(p * q >= q) by (nonlinear_arith)
        requires
            p >= 1,
            q >= 0,
    ;
    assert(q * p == p * q) by (nonlinear_arith);
    assert((q + 1) * p == p * q + p) by (nonlinear_arith);
    assert((q - 1) * p == p * q - p) by (nonlinear_arith);
}

/// The number of partition proofs required to prove a sector set of length
/// `num_sectors`. A set whose length the partition size does not divide takes
/// one partition more, whose free slots repeat the last sector.
pub fn partition_count<const SECTOR_NODES: usize>(num_sectors: usize) -> (count: usize)
    ensures
        count == partitions_needed(
            num_sectors as nat,
            spec_sectors_challenged_per_partition(SECTOR_NODES) as nat,
        ),
{
    let partition_sectors = sectors_challenged_per_partition(SECTOR_NODES);
    partitions_for(num_sectors, partition_sectors)
}

/// The number of partitions of `partition_sectors` slots that hold
/// `num_sectors` sectors.
pub fn partitions_for(num_sectors: usize, partition_sectors: usize) -> (count: usize)
    requires
        partition_sectors > 0,
    ensures
        count == partitions_needed(num_sectors as nat, partition_sectors as nat),
{
    proof {
        lemma_partitions_needed_is_least(num_sectors as nat, partition_sectors as nat);
    }
    let full = num_sectors / partition_sectors;
    if num_sectors % partition_sectors == 0 {
        full
    } else {
        full + 1
    }
}

/// The index in the sector set of the sector that stands in a slot of
/// partition `k`. A slot beyond the end of the set repeats the last sector.
pub open spec fn slot_source(total: int, k: int, partition_sectors: int, slot: int) -> int {
    let index = k * partition_sectors + slot;
    if index < total {
        index
    } else {
        total - 1
    }
}

/// The sectors that stand in the slots of partition `k`, padding included.
pub open spec fn partition_slots<T>(sectors: Seq<T>, k: int, partition_sectors: int) -> Seq<T> {
    Seq::new(
        partition_sectors as nat,
        |slot: int| sectors[slot_source(sectors.len() as int, k, partition_sectors, slot)],
    )
}

/// For each slot of partition `k`, the index in the sector set of the sector
/// that stands in it; nothing, where the set does not reach partition `k`.
/// Prover and verifier pad alike when both take their sectors by these.
pub fn partition_sources(total: usize, k: usize, partition_sectors: usize) -> (sources: Option<
    Vec<usize>,
>)
    requires
        partition_sectors > 0,
    ensures
        sources.is_some() == (k < partitions_needed(total as nat, partition_sectors as nat)),
        sources.is_some() ==> sources.unwrap()@.len() == partition_sectors,
        sources.is_some() ==> forall|slot: int|
            0 <= slot < partition_sectors ==> #[trigger] sources.unwrap()@[slot] == slot_source(
                total as int,
                k as int,
                partition_sectors as int,
                slot,
            ),
{
    if k >= partitions_for(total, partition_sectors) {
        return None;
    }
    proof {
        lemma_partitions_needed_is_least(total as nat, partition_sectors as nat);
        assert(k * partition_sectors < total) by (nonlinear_arith)
            requires
                0 <= k <= partitions_needed(total as nat, partition_sectors as nat) - 1,
                partition_sectors > 0,
                (partitions_needed(total as nat, partition_sectors as nat) - 1) * partition_sectors
                    < total,
        ;
    }
    let start = k * partition_sectors;
    let mut sources: Vec<usize> = Vec::new();
    let mut slot: usize = 0;
    while slot < partition_sectors
        invariant
            slot <= partition_sectors,
            start == k * partition_sectors,
            start < total,
            sources@.len() == slot,
            forall|s: int|
                0 <= s < slot ==> #[trigger] sources@[s] == slot_source(
                    total as int,
                    k as int,
                    partition_sectors as int,
                    s,
                ),
        decreases partition_sectors - slot,
    {
        let source = if slot < total - start {
            start + slot
        } else {
            total - 1
        };
        sources.push(source);
        slot += 1;
    }
    Some(sources)
}

/// Every partition has exactly as many slots as a partition challenges
/// sectors, and each slot shows a sector of the set.
pub proof fn lemma_partition_is_full<T>(sectors: Seq<T>, k: int, partition_sectors: int)
    requires
        partition_sectors > 0,
        0 <= k < partitions_needed(sectors.len(), partition_sectors as nat),
    ensures
        partition_slots(sectors, k, partition_sectors).len() == partition_sectors,
        forall|slot: int|
            0 <= slot < partition_sectors ==> 0 <= #[trigger] slot_source(
                sectors.len() as int,
                k,
                partition_sectors,
                slot,
            ) < sectors.len(),
        forall|slot: int|
            0 <= slot < partition_sectors && k * partition_sectors + slot < sectors.len()
                ==> #[trigger] partition_slots(sectors, k, partition_sectors)[slot] == sectors[k
                * partition_sectors + slot],
{
    lemma_partitions_needed_is_least(sectors.len(), partition_sectors as nat);
    assert(k * partition_sectors >= 0) by (nonlinear_arith)
        requires
            k >= 0,
            partition_sectors > 0,
    ;
}

/// No sector is left out: each sector of the set stands in a slot of one of
/// the set's partitions, the slot that its place in the set gives it.
pub proof fn lemma_every_sector_has_a_slot(total: int, partition_sectors: int, index: int)
    requires
        partition_sectors > 0,
        0 <= index < total,
    ensures
        0 <= index / partition_sectors < partitions_needed(total as nat, partition_sectors as nat),
        0 <= index % partition_sectors < partition_sectors,
        slot_source(total, index / partition_sectors, partition_sectors, index % partition_sectors)
            == index,
{
    let p = partition_sectors;
    let k = index / p;
    vstd::arithmetic::div_mod::lemma_fundamental_div_mod(index, p);
    vstd::arithmetic::div_mod::lemma_fundamental_div_mod(total, p);
    lemma_partitions_needed_is_least(total as nat, p as nat);
    let count = partitions_needed(total as nat, p as nat) as int;
    assert(k * p == p * k) by (nonlinear_arith);
    assert(k >= 0) by (nonlinear_arith)
        requires
            index == p * k + index % p,
            0 <= index % p < p,
            index >= 0,
    ;
    assert(k < count) by (nonlinear_arith)
        requires
            count * p >= total,
            p * k <= index,
            index < total,
            p > 0,
    ;
}

/// Padding by hand changes nothing: when the set does not fill its last
/// partition, the set with its last sector repeated once more has the same
/// number of partitions, and each partition has the same sectors in its slots.
pub proof fn lemma_padding_by_hand<T>(sectors: Seq<T>, partition_sectors: int)
    requires
        partition_sectors > 0,
        sectors.len() % (partition_sectors as nat) != 0,
    ensures
        partitions_needed(sectors.len() + 1, partition_sectors as nat) == partitions_needed(
            sectors.len(),
            partition_sectors as nat,
        ),
        forall|k: int|
            0 <= k < partitions_needed(sectors.len(), partition_sectors as nat)
                ==> #[trigger] partition_slots(sectors.push(sectors.last()), k, partition_sectors)
                == partition_slots(sectors, k, partition_sectors),
{
    let n = sectors.len() as int;
    let p = partition_sectors;
    let padded = sectors.push(sectors.last());
    vstd::arithmetic::div_mod::lemma_fundamental_div_mod(n, p);
    let q = n / p;
    let r = n % p;
    assert(0 < r < p);
    if r + 1 == p {
        assert(n + 1 == (q + 1) * p + 0) by (nonlinear_arith)
            requires
                n == p * q + r,
                r + 1 == p,
        ;
        vstd::arithmetic::div_mod::lemma_fundamental_div_mod_converse(n + 1, p, q + 1, 0);
    } else {
        assert(n + 1 == q * p + (r + 1)) by (nonlinear_arith)
            requires
                n == p * q + r,
        ;
        vstd::arithmetic::div_mod::lemma_fundamental_div_mod_converse(n + 1, p, q, r + 1);
    }
    assert forall|k: int|
        0 <= k < partitions_needed(sectors.len(), partition_sectors as nat) implies #[trigger] partition_slots(
        padded,
        k,
        p,
    ) == partition_slots(sectors, k, p) by {
        assert(k * p >= 0) by (nonlinear_arith)
            requires
                k >= 0,
                p > 0,
        ;
        assert forall|slot: int| 0 <= slot < p implies partition_slots(padded, k, p)[slot]
            == partition_slots(sectors, k, p)[slot] by {
            let index = k * p + slot;
            if index < n {
                assert(padded[index] == sectors[index]);
            } else {
                assert(padded[n] == sectors[n - 1]);
            }
        }
        assert(partition_slots(padded, k, p) =~= partition_slots(sectors, k, p));
    }
}

/// A set one sector short of two full partitions takes two partitions, as
/// the set padded by hand to two full partitions does, and both show the
/// same sectors in every slot of either partition.
pub proof fn lemma_short_set_matches_padded_set<T>(sectors: Seq<T>, partition_sectors: int)
    requires
        partition_sectors >= 2,
        sectors.len() == 2 * partition_sectors - 1,
    ensures
        partitions_needed(sectors.len(), partition_sectors as nat) == 2,
        partitions_needed((2 * partition_sectors) as nat, partition_sectors as nat) == 2,
        sectors.push(sectors.last()).len() == 2 * partition_sectors,
        partition_slots(sectors.push(sectors.last()), 0, partition_sectors) == partition_slots(
            sectors,
            0,
            partition_sectors,
        ),
        partition_slots(sectors.push(sectors.last()), 1, partition_sectors) == partition_slots(
            sectors,
            1,
            partition_sectors,
        ),
{
    let n = sectors.len() as int;
    let p = partition_sectors;
    vstd::arithmetic::div_mod::lemma_fundamental_div_mod_converse(n, p, 1, p - 1);
    vstd::arithmetic::div_mod::lemma_fundamental_div_mod_converse(2 * p, p, 2, 0);
    lemma_padding_by_hand(sectors, p);
}

} // verus!
