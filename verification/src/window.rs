//! The circuit of a window proof-of-spacetime partition: its public inputs,
//! where each of them stands in the instance column, its witnesses, and its
//! size.

use crate::challenge::{sector_challenges, spec_challenge, SECTOR_CHALLENGES};
use crate::le_bytes::{le_value, lemma_le_value_after_u64, lemma_le_value_of_zeros};
use crate::partition::{
    lemma_padding_by_hand, lemma_partitions_needed_is_least, partition_slots, partitions_for,
    partitions_needed, sectors_challenged_per_partition, slot_source,
    spec_sectors_challenged_per_partition, GROTH16_PARTITIONING,
};
use crate::sector::{
    NODE_SIZE, SECTOR_NODES_16_KIB, SECTOR_NODES_2_KIB, SECTOR_NODES_32_GIB, SECTOR_NODES_32_KIB,
    SECTOR_NODES_4_KIB, SECTOR_NODES_512_MIB, SECTOR_NODES_64_GIB,
};
use vstd::bytes::{lemma_auto_spec_u64_to_from_le_bytes, spec_u64_to_le_bytes, u64_to_le_bytes};
use vstd::prelude::*;

verus! {

/// The canonical little-endian encoding of an element of the circuit's field.
pub type FieldBytes = [u8; 32];

/// Absolute row of a challenged sector's `comm_r` public input.
pub open spec fn spec_comm_r_row(sector_index: int) -> int {
    sector_index * (1 + SECTOR_CHALLENGES)
}

/// Absolute row of a challenged sector's Merkle challenge public input.
pub open spec fn spec_challenge_row(sector_index: int, challenge_index: int) -> int {
    spec_comm_r_row(sector_index) + 1 + challenge_index
}

/// Absolute row of a challenged sector's `comm_r` public input.
pub fn comm_r_row(sector_index: usize) -> (row: usize)
    requires
        sector_index * (1 + SECTOR_CHALLENGES) <= usize::MAX,
    ensures
        row == spec_comm_r_row(sector_index as int),
{
    sector_index * (1 + SECTOR_CHALLENGES)
}

/// Absolute row of a challenged sector's Merkle challenge public input.
pub fn challenge_row(sector_index: usize, challenge_index: usize) -> (row: usize)
    requires
        sector_index * (1 + SECTOR_CHALLENGES) + 1 + challenge_index <= usize::MAX,
    ensures
        row == spec_challenge_row(sector_index as int, challenge_index as int),
{
    comm_r_row(sector_index) + 1 + challenge_index
}

/// Every public input has a row of its own: the rows of one sector follow one
/// another, its `comm_r` first, and the rows of the next sector follow them.
pub proof fn lemma_rows_are_distinct(
    sector_a: int,
    challenge_a: int,
    sector_b: int,
    challenge_b: int,
)
    requires
        0 <= sector_a,
        0 <= sector_b,
        0 <= challenge_a < SECTOR_CHALLENGES,
        0 <= challenge_b < SECTOR_CHALLENGES,
    ensures
        spec_challenge_row(sector_a, challenge_a) != spec_comm_r_row(sector_b),
        spec_comm_r_row(sector_a) == spec_comm_r_row(sector_b) ==> sector_a == sector_b,
        spec_challenge_row(sector_a, challenge_a) == spec_challenge_row(sector_b, challenge_b)
            ==> sector_a == sector_b && challenge_a == challenge_b,
        spec_challenge_row(sector_a, SECTOR_CHALLENGES - 1) + 1 == spec_comm_r_row(sector_a + 1),
{
}

/// The field element that stands for a number: its canonical encoding is the
/// number's eight little-endian bytes, followed by zeros.
pub open spec fn field_bytes_of(value: u64) -> Seq<u8> {
    spec_u64_to_le_bytes(value) + Seq::new(24, |i: int| 0u8)
}

/// The encoding of a number spells the number itself in 32 bytes, least
/// significant byte first.
pub proof fn lemma_field_bytes_spell_the_number(value: u64)
    ensures
        field_bytes_of(value).len() == 32,
        le_value(field_bytes_of(value)) == value,
{
    lemma_auto_spec_u64_to_from_le_bytes();
    let bytes = field_bytes_of(value);
    assert(bytes.subrange(0, 8) =~= spec_u64_to_le_bytes(value));
    lemma_le_value_after_u64(bytes, value);
    lemma_le_value_of_zeros(bytes.skip(8));
}

/// Encodes a number as an element of the circuit's field.
pub fn field_from_u64(value: u64) -> (bytes: FieldBytes)
    ensures
        bytes@ == field_bytes_of(value),
{
    let low = u64_to_le_bytes(value);
    let mut bytes = [0u8;32];
    let mut i: usize = 0;
    while i < 8
        invariant
            i <= 8,
            low@.len() == 8,
            forall|j: int| 0 <= j < i ==> bytes@[j] == low@[j],
            forall|j: int| i <= j < 32 ==> bytes@[j] == 0u8,
        decreases 8 - i,
    {
        bytes[i] = low[i];
        i += 1;
    }
    assert(bytes@ =~= field_bytes_of(value));
    bytes
}

/// One sector of the prover's set, as a proof's statement names it.
#[derive(Clone, Copy, Debug, PartialEq, Eq)]
pub struct PublicSector {
    pub id: u64,
    pub comm_r: FieldBytes,
}

/// The statement of a window proof before it is laid out for the circuit:
/// the whole sector set of the prover and the partition that is proved.
#[derive(Clone, Debug, PartialEq, Eq)]
pub struct VanillaPublicInputs {
    pub randomness: FieldBytes,
    pub prover_id: FieldBytes,
    pub sectors: Vec<PublicSector>,
    pub k: Option<usize>,
}

/// Why a statement names no partition of its sector set.
#[derive(Clone, Copy, Debug, PartialEq, Eq)]
pub enum PartitionError {
    /// The statement names no partition.
    MissingPartitionIndex,
    /// The sector set does not reach the partition that the statement names.
    PartitionOutOfRange,
}

/// The `comm_r` public input of a slot of partition `k`.
pub open spec fn slot_comm_r(
    sectors: Seq<PublicSector>,
    k: int,
    partition_sectors: int,
    slot: int,
) -> Option<FieldBytes> {
    Some(partition_slots(sectors, k, partition_sectors)[slot].comm_r)
}

/// A challenge public input of a slot of partition `k`. The challenges of a
/// sector are numbered by the sector's place in the set, so a slot that
/// repeats the last sector repeats its challenges too.
pub open spec fn slot_challenge(
    randomness: Seq<u8>,
    sectors: Seq<PublicSector>,
    k: int,
    partition_sectors: int,
    slot: int,
    challenge_index: int,
    sector_nodes: u64,
) -> Option<u32> {
    let source = slot_source(sectors.len() as int, k, partition_sectors, slot);
    Some(
        spec_challenge(
            randomness,
            sectors[source].id,
            (source * SECTOR_CHALLENGES + challenge_index) as u64,
            sector_nodes,
        ),
    )
}

/// The public inputs of one partition's circuit. A missing value stands for
/// an input that is not known yet, as in a circuit without witnesses.
#[derive(Clone, Debug, PartialEq, Eq)]
pub struct PublicInputs<const SECTOR_NODES: usize> {
    /// Each challenged sector's `comm_r`.
    pub comms_r: Vec<Option<FieldBytes>>,
    /// Each challenged sector's Merkle challenges.
    pub challenges: Vec<[Option<u32>; SECTOR_CHALLENGES]>,
}

/// Padding by hand changes no `comm_r`: for a set that does not fill its last
/// partition, and the same set with its last sector repeated once more, the
/// public inputs of a partition hold the same `comm_r` in every slot, and the
/// same challenges in every slot that a sector of the shorter set fills.
pub proof fn lemma_padding_by_hand_keeps_public_inputs<const SECTOR_NODES: usize>(
    short: VanillaPublicInputs,
    padded: VanillaPublicInputs,
    partition_sectors: int,
    from_short: PublicInputs<SECTOR_NODES>,
    from_padded: PublicInputs<SECTOR_NODES>,
)
    requires
        partition_sectors > 0,
        short.sectors@.len() % (partition_sectors as nat) != 0,
        padded.sectors@ == short.sectors@.push(short.sectors@.last()),
        padded.randomness == short.randomness,
        padded.k == short.k,
        short.k.is_some(),
        short.k.unwrap() < partitions_needed(short.sectors@.len(), partition_sectors as nat),
        from_short.shows_partition(short, partition_sectors),
        from_padded.shows_partition(padded, partition_sectors),
    ensures
        from_short.comms_r@ == from_padded.comms_r@,
        forall|slot: int|
            0 <= slot < partition_sectors && short.k.unwrap() * partition_sectors + slot
                < short.sectors@.len() ==> #[trigger] from_short.challenges@[slot]
                == from_padded.challenges@[slot],
{
    let k = short.k.unwrap() as int;
    let total = short.sectors@.len() as int;
    lemma_padding_by_hand(short.sectors@, partition_sectors);
    assert(partition_slots(padded.sectors@, k, partition_sectors) == partition_slots(
        short.sectors@,
        k,
        partition_sectors,
    ));
    assert forall|slot: int| 0 <= slot < partition_sectors implies from_short.comms_r@[slot]
        == from_padded.comms_r@[slot] by {
        assert(from_short.comms_r@[slot] == slot_comm_r(
            short.sectors@,
            k,
            partition_sectors,
            slot,
        ));
        assert(from_padded.comms_r@[slot] == slot_comm_r(
            padded.sectors@,
            k,
            partition_sectors,
            slot,
        ));
    }
    assert(from_short.comms_r@ =~= from_padded.comms_r@);
    assert forall|slot: int|
        0 <= slot < partition_sectors && k * partition_sectors + slot
            < total implies #[trigger] from_short.challenges@[slot]
        == from_padded.challenges@[slot] by {
        let source = k * partition_sectors + slot;
        assert(slot_source(total, k, partition_sectors, slot) == source);
        assert(slot_source(total + 1, k, partition_sectors, slot) == source);
        assert(padded.sectors@[source] == short.sectors@[source]);
        assert forall|i: int| 0 <= i < SECTOR_CHALLENGES implies from_short.challenges@[slot][i]
            == from_padded.challenges@[slot][i] by {
            assert(from_short.challenges@[slot][i] == slot_challenge(
                short.randomness@,
                short.sectors@,
                k,
                partition_sectors,
                slot,
                i,
                SECTOR_NODES as u64,
            ));
            assert(from_padded.challenges@[slot][i] == slot_challenge(
                padded.randomness@,
                padded.sectors@,
                k,
                partition_sectors,
                slot,
                i,
                SECTOR_NODES as u64,
            ));
        }
        assert(from_short.challenges@[slot] =~= from_padded.challenges@[slot]);
    }
}

/// Marks each of a sector's challenges as known.
fn known_challenges(challenges: &[u32; SECTOR_CHALLENGES]) -> (known: [Option<
    u32,
>; SECTOR_CHALLENGES])
    ensures
        forall|i: int| 0 <= i < SECTOR_CHALLENGES ==> #[trigger] known[i] == Some(challenges[i]),
{
    let mut known: [Option<u32>; SECTOR_CHALLENGES] = [None;SECTOR_CHALLENGES];
    let mut i: usize = 0;
    while i < SECTOR_CHALLENGES
        invariant
            i <= SECTOR_CHALLENGES,
            forall|j: int| 0 <= j < i ==> #[trigger] known[j] == Some(challenges[j]),
        decreases SECTOR_CHALLENGES - i,
    {
        known[i] = Some(challenges[i]);
        i += 1;
    }
    known
}

impl<const SECTOR_NODES: usize> PublicInputs<SECTOR_NODES> {
    /// Whether these are the public inputs of the partition that `vanilla`
    /// names, for partitions of `partition_sectors` slots: one slot for each
    /// challenged sector, each with the sector's `comm_r` and its derived
    /// challenges.
    pub open spec fn shows_partition(
        self,
        vanilla: VanillaPublicInputs,
        partition_sectors: int,
    ) -> bool {
        let k = vanilla.k.unwrap() as int;
        &&& self.comms_r@.len() == partition_sectors
        &&& self.challenges@.len() == partition_sectors
        &&& forall|slot: int|
            0 <= slot < partition_sectors ==> #[trigger] self.comms_r@[slot] == slot_comm_r(
                vanilla.sectors@,
                k,
                partition_sectors,
                slot,
            )
        &&& forall|slot: int, i: int|
            0 <= slot < partition_sectors && 0 <= i < SECTOR_CHALLENGES
                ==> #[trigger] self.challenges@[slot][i] == slot_challenge(
                vanilla.randomness@,
                vanilla.sectors@,
                k,
                partition_sectors,
                slot,
                i,
                SECTOR_NODES as u64,
            )
    }

    /// Whether these are the public inputs of the partition that `vanilla`
    /// names, for the partition size of this sector size.
    pub open spec fn shows(self, vanilla: VanillaPublicInputs) -> bool {
        self.shows_partition(vanilla, spec_sectors_challenged_per_partition(SECTOR_NODES) as int)
    }

    /// Lays out the public inputs of the partition that the statement names.
    /// The statement must name a partition, and the sector set must reach it;
    /// the last partition of a set that does not fill it is padded with the
    /// set's last sector.
    pub fn from(vanilla_pub_inputs: &VanillaPublicInputs) -> (result: Result<
        Self,
        PartitionError,
    >)
        requires
            SECTOR_NODES > 0,
            vanilla_pub_inputs.sectors@.len() * SECTOR_CHALLENGES <= usize::MAX,
        ensures
            vanilla_pub_inputs.k.is_none() ==> result == Err::<Self, PartitionError>(
                PartitionError::MissingPartitionIndex,
            ),
            vanilla_pub_inputs.k.is_some() && vanilla_pub_inputs.k.unwrap() >= partitions_needed(
                vanilla_pub_inputs.sectors@.len(),
                spec_sectors_challenged_per_partition(SECTOR_NODES) as nat,
            ) ==> result == Err::<Self, PartitionError>(PartitionError::PartitionOutOfRange),
            vanilla_pub_inputs.k.is_some() && vanilla_pub_inputs.k.unwrap() < partitions_needed(
                vanilla_pub_inputs.sectors@.len(),
                spec_sectors_challenged_per_partition(SECTOR_NODES) as nat,
            ) ==> result.is_ok() && result.unwrap().shows(*vanilla_pub_inputs),
    {
        Self::for_partition(vanilla_pub_inputs, sectors_challenged_per_partition(SECTOR_NODES))
    }

    /// Lays out the public inputs of the partition that the statement names,
    /// for partitions of `partition_sectors` slots.
    pub fn for_partition(
        vanilla_pub_inputs: &VanillaPublicInputs,
        partition_sectors: usize,
    ) -> (result: Result<Self, PartitionError>)
        requires
            SECTOR_NODES > 0,
            partition_sectors > 0,
            vanilla_pub_inputs.sectors@.len() * SECTOR_CHALLENGES <= usize::MAX,
        ensures
            vanilla_pub_inputs.k.is_none() ==> result == Err::<Self, PartitionError>(
                PartitionError::MissingPartitionIndex,
            ),
            vanilla_pub_inputs.k.is_some() && vanilla_pub_inputs.k.unwrap() >= partitions_needed(
                vanilla_pub_inputs.sectors@.len(),
                partition_sectors as nat,
            ) ==> result == Err::<Self, PartitionError>(PartitionError::PartitionOutOfRange),
            vanilla_pub_inputs.k.is_some() && vanilla_pub_inputs.k.unwrap() < partitions_needed(
                vanilla_pub_inputs.sectors@.len(),
                partition_sectors as nat,
            ) ==> result.is_ok() && result.unwrap().shows_partition(
                *vanilla_pub_inputs,
                partition_sectors as int,
            ),
    {
        let total_prover_sectors = vanilla_pub_inputs.sectors.len();
        let partition_count = partitions_for(total_prover_sectors, partition_sectors);
        let k = match vanilla_pub_inputs.k {
            None => {
                return Err(PartitionError::MissingPartitionIndex);
            },
            Some(k) => k,
        };
        if k >= partition_count {
            return Err(PartitionError::PartitionOutOfRange);
        }
        proof {
            lemma_partitions_needed_is_least(total_prover_sectors as nat, partition_sectors as nat);
            assert(k * partition_sectors < total_prover_sectors) by (nonlinear_arith)
                requires
                    0 <= k <= partition_count - 1,
                    partition_sectors > 0,
                    (partition_count - 1) * partition_sectors < total_prover_sectors,
            ;
        }
        let start = k * partition_sectors;
        let real_sectors = if total_prover_sectors - start < partition_sectors {
            total_prover_sectors - start
        } else {
            partition_sectors
        };
        let ghost sectors = vanilla_pub_inputs.sectors@;
        let ghost randomness = vanilla_pub_inputs.randomness@;
        let mut pub_inputs = PublicInputs::<SECTOR_NODES> {
            comms_r: Vec::new(),
            challenges: Vec::new(),
        };
        let mut sector_index: usize = 0;
        while sector_index < real_sectors
            invariant
                SECTOR_NODES > 0,
                sector_index <= real_sectors <= partition_sectors,
                0 < real_sectors,
                start == k * partition_sectors,
                start + real_sectors <= total_prover_sectors,
                total_prover_sectors == sectors.len(),
                total_prover_sectors * SECTOR_CHALLENGES <= usize::MAX,
                sectors == vanilla_pub_inputs.sectors@,
                randomness == vanilla_pub_inputs.randomness@,
                pub_inputs.comms_r@.len() == sector_index,
                pub_inputs.challenges@.len() == sector_index,
                forall|slot: int|
                    0 <= slot < sector_index ==> #[trigger] pub_inputs.comms_r@[slot]
                        == slot_comm_r(sectors, k as int, partition_sectors as int, slot),
                forall|slot: int, i: int|
                    0 <= slot < sector_index && 0 <= i < SECTOR_CHALLENGES
                        ==> #[trigger] pub_inputs.challenges@[slot][i] == slot_challenge(
                        randomness,
                        sectors,
                        k as int,
                        partition_sectors as int,
                        slot,
                        i,
                        SECTOR_NODES as u64,
                    ),
            decreases real_sectors - sector_index,
        {
            let sector = vanilla_pub_inputs.sectors[start + sector_index];
            let first = (start + sector_index) * SECTOR_CHALLENGES;
            let challenges = sector_challenges(
                &vanilla_pub_inputs.randomness,
                sector.id,
                first,
                SECTOR_NODES,
            );
            let known = known_challenges(&challenges);
            let ghost before = pub_inputs;
            pub_inputs.comms_r.push(Some(sector.comm_r));
            pub_inputs.challenges.push(known);
            proof {
                let slot = sector_index as int;
                assert(slot_source(sectors.len() as int, k as int, partition_sectors as int, slot)
                    == start + sector_index);
                assert forall|s: int, i: int|
                    0 <= s < sector_index + 1 && 0 <= i < SECTOR_CHALLENGES implies #[trigger] pub_inputs.challenges@[s][i]
                    == slot_challenge(
                    randomness,
                    sectors,
                    k as int,
                    partition_sectors as int,
                    s,
                    i,
                    SECTOR_NODES as u64,
                ) by {
                    if s < sector_index {
                        assert(pub_inputs.challenges@[s] == before.challenges@[s]);
                    } else {
                        assert(pub_inputs.challenges@[s] == known);
                        assert(known[i] == Some(challenges[i]));
                    }
                }
            }
            sector_index += 1;
        }
        // Apply sector padding if necessary.
        while pub_inputs.comms_r.len() < partition_sectors
            invariant
                0 < real_sectors <= pub_inputs.comms_r@.len() <= partition_sectors,
                pub_inputs.challenges@.len() == pub_inputs.comms_r@.len(),
                start == k * partition_sectors,
                start + real_sectors <= total_prover_sectors,
                real_sectors < partition_sectors ==> start + real_sectors == total_prover_sectors,
                total_prover_sectors == sectors.len(),
                forall|slot: int|
                    0 <= slot < pub_inputs.comms_r@.len() ==> #[trigger] pub_inputs.comms_r@[slot]
                        == slot_comm_r(sectors, k as int, partition_sectors as int, slot),
                forall|slot: int, i: int|
                    0 <= slot < pub_inputs.comms_r@.len() && 0 <= i < SECTOR_CHALLENGES
                        ==> #[trigger] pub_inputs.challenges@[slot][i] == slot_challenge(
                        randomness,
                        sectors,
                        k as int,
                        partition_sectors as int,
                        slot,
                        i,
                        SECTOR_NODES as u64,
                    ),
            decreases partition_sectors - pub_inputs.comms_r@.len(),
        {
            let filled = pub_inputs.comms_r.len();
            let last_comm_r = pub_inputs.comms_r[filled - 1];
            let last_challenges = pub_inputs.challenges[filled - 1];
            let ghost before = pub_inputs;
            pub_inputs.comms_r.push(last_comm_r);
            pub_inputs.challenges.push(last_challenges);
            proof {
                let size = partition_sectors as int;
                let total = sectors.len() as int;
                assert(slot_source(total, k as int, size, filled as int) == total - 1);
                assert(slot_source(total, k as int, size, filled - 1) == total - 1);
                assert(before.comms_r@[filled - 1] == slot_comm_r(
                    sectors,
                    k as int,
                    size,
                    filled - 1,
                ));
                assert forall|s: int, i: int|
                    0 <= s < filled + 1 && 0 <= i < SECTOR_CHALLENGES implies #[trigger] pub_inputs.challenges@[s][i]
                    == slot_challenge(
                    randomness,
                    sectors,
                    k as int,
                    size,
                    s,
                    i,
                    SECTOR_NODES as u64,
                ) by {
                    if s < filled {
                        assert(pub_inputs.challenges@[s] == before.challenges@[s]);
                    } else {
                        assert(pub_inputs.challenges@[s] == before.challenges@[filled - 1]);
                        assert(before.challenges@[filled - 1][i] == slot_challenge(
                            randomness,
                            sectors,
                            k as int,
                            size,
                            filled - 1,
                            i,
                            SECTOR_NODES as u64,
                        ));
                    }
                }
            }
        }
        Ok(pub_inputs)
    }

    /// Public inputs in which every slot of a partition holds the same
    /// `comm_r` and the same challenge.
    pub fn uniform(comm_r: Option<FieldBytes>, challenge: Option<u32>) -> (inputs: Self)
        ensures
            inputs.comms_r@.len() == spec_sectors_challenged_per_partition(SECTOR_NODES),
            inputs.challenges@.len() == spec_sectors_challenged_per_partition(SECTOR_NODES),
            forall|slot: int|
                0 <= slot < inputs.comms_r@.len() ==> #[trigger] inputs.comms_r@[slot] == comm_r,
            forall|slot: int, i: int|
                0 <= slot < inputs.challenges@.len() && 0 <= i < SECTOR_CHALLENGES
                    ==> #[trigger] inputs.challenges@[slot][i] == challenge,
    {
        let challenged_sectors = sectors_challenged_per_partition(SECTOR_NODES);
        let mut inputs = PublicInputs::<SECTOR_NODES> {
            comms_r: Vec::with_capacity(challenged_sectors),
            challenges: Vec::with_capacity(challenged_sectors),
        };
        let mut slot: usize = 0;
        while slot < challenged_sectors
            invariant
                slot <= challenged_sectors,
                inputs.comms_r@.len() == slot,
                inputs.challenges@.len() == slot,
                forall|s: int| 0 <= s < slot ==> #[trigger] inputs.comms_r@[s] == comm_r,
                forall|s: int, i: int|
                    0 <= s < slot && 0 <= i < SECTOR_CHALLENGES
                        ==> #[trigger] inputs.challenges@[s][i] == challenge,
            decreases challenged_sectors - slot,
        {
            inputs.comms_r.push(comm_r);
            inputs.challenges.push([challenge;SECTOR_CHALLENGES]);
            slot += 1;
        }
        inputs
    }

    /// The public inputs of a circuit without witnesses: a partition's slots
    /// with no value known.
    pub fn empty() -> (inputs: Self)
        ensures
            inputs.comms_r@.len() == spec_sectors_challenged_per_partition(SECTOR_NODES),
            inputs.challenges@.len() == spec_sectors_challenged_per_partition(SECTOR_NODES),
            forall|slot: int|
                0 <= slot < inputs.comms_r@.len() ==> (#[trigger] inputs.comms_r@[slot]).is_none(),
            forall|slot: int, i: int|
                0 <= slot < inputs.challenges@.len() && 0 <= i < SECTOR_CHALLENGES ==> (
                #[trigger] inputs.challenges@[slot][i]).is_none(),
    {
        Self::uniform(None, None)
    }

    /// Whether every public input is known, with challenges for each sector.
    pub open spec fn is_complete(self) -> bool {
        &&& self.challenges@.len() == self.comms_r@.len()
        &&& forall|slot: int|
            0 <= slot < self.comms_r@.len() ==> (#[trigger] self.comms_r@[slot]).is_some()
        &&& forall|slot: int, i: int|
            0 <= slot < self.challenges@.len() && 0 <= i < SECTOR_CHALLENGES ==> (
            #[trigger] self.challenges@[slot][i]).is_some()
    }

    /// Whether `column` holds the rows of sector `slot`: its `comm_r`, and
    /// after it the first `challenges` of its challenges as field elements.
    /// A sector takes eleven rows, one more than it has challenges.
    spec fn holds_sector(
        self,
        column: Seq<FieldBytes>,
        slot: int,
        challenges: int,
    ) -> bool {
        &&& column[11 * slot] == self.comms_r@[slot].unwrap()
        &&& forall|i: int|
            0 <= i < challenges ==> column[11 * slot + 1 + i]@ == field_bytes_of(
                (#[trigger] self.challenges@[slot][i]).unwrap() as u64,
            )
    }

    /// A row that is added below leaves the rows of a sector as they are.
    proof fn lemma_push_keeps_sector(
        self,
        column: Seq<FieldBytes>,
        value: FieldBytes,
        slot: int,
        challenges: int,
    )
        requires
            0 <= slot,
            0 <= challenges,
            11 * slot + challenges < column.len(),
            self.holds_sector(column, slot, challenges),
        ensures
            self.holds_sector(column.push(value), slot, challenges),
    {
        let longer = column.push(value);
        assert(longer[11 * slot] == column[11 * slot]);
        assert forall|i: int| 0 <= i < challenges implies longer[11 * slot + 1 + i]@
            == field_bytes_of((#[trigger] self.challenges@[slot][i]).unwrap() as u64) by {
            assert(longer[11 * slot + 1 + i] == column[11 * slot + 1 + i]);
        }
    }

    /// Whether `column` is the instance column of these public inputs: each
    /// sector's `comm_r` in its row, and each challenge, as a field element, in
    /// its row.
    pub open spec fn is_instance_column(self, column: Seq<FieldBytes>) -> bool {
        &&& column.len() == self.comms_r@.len() * (1 + SECTOR_CHALLENGES)
        &&& forall|slot: int|
            0 <= slot < self.comms_r@.len() ==> column[spec_comm_r_row(slot)]
                == (#[trigger] self.comms_r@[slot]).unwrap()
        &&& forall|slot: int, i: int|
            0 <= slot < self.challenges@.len() && 0 <= i < SECTOR_CHALLENGES
                ==> column[spec_challenge_row(slot, i)]@ == field_bytes_of(
                (#[trigger] self.challenges@[slot][i]).unwrap() as u64,
            )
    }

    /// The public inputs as the circuit's one instance column.
    pub fn to_vec(&self) -> (columns: Vec<Vec<FieldBytes>>)
        requires
            self.is_complete(),
        ensures
            columns@.len() == 1,
            self.is_instance_column(columns@[0]@),
    {
        let num_sectors = self.comms_r.len();
        let mut pub_inputs: Vec<FieldBytes> = Vec::new();
        let mut slot: usize = 0;
        while slot < num_sectors
            invariant
                self.is_complete(),
                num_sectors == self.comms_r@.len(),
                slot <= num_sectors,
                pub_inputs@.len() == 11 * slot,
                forall|s: int|
                    0 <= s < slot ==> #[trigger] self.holds_sector(
                        pub_inputs@,
                        s,
                        SECTOR_CHALLENGES as int,
                    ),
            decreases num_sectors - slot,
        {
            let comm_r = match self.comms_r[slot] {
                Some(comm_r) => comm_r,
                None => {
                    proof {
                        assert(self.comms_r@[slot as int].is_some());
                    }
                    unreached()
                },
            };
            proof {
                assert forall|s: int| 0 <= s < slot implies #[trigger] self.holds_sector(
                    pub_inputs@.push(comm_r),
                    s,
                    SECTOR_CHALLENGES as int,
                ) by {
                    self.lemma_push_keeps_sector(pub_inputs@, comm_r, s, SECTOR_CHALLENGES as int);
                }
            }
            pub_inputs.push(comm_r);
            let challenges = &self.challenges[slot];
            let mut c: usize = 0;
            while c < SECTOR_CHALLENGES
                invariant
                    self.is_complete(),
                    num_sectors == self.comms_r@.len(),
                    slot < num_sectors,
                    c <= SECTOR_CHALLENGES,
                    *challenges == self.challenges@[slot as int],
                    pub_inputs@.len() == 11 * slot + 1 + c,
                    forall|s: int|
                        0 <= s < slot ==> #[trigger] self.holds_sector(
                            pub_inputs@,
                            s,
                            SECTOR_CHALLENGES as int,
                        ),
                    self.holds_sector(pub_inputs@, slot as int, c as int),
                decreases SECTOR_CHALLENGES - c,
            {
                let challenge = match challenges[c] {
                    Some(challenge) => challenge,
                    None => {
                        proof {
                            assert(self.challenges@[slot as int][c as int].is_some());
                        }
                        unreached()
                    },
                };
                let element = field_from_u64(challenge as u64);
                proof {
                    assert forall|s: int| 0 <= s < slot implies #[trigger] self.holds_sector(
                        pub_inputs@.push(element),
                        s,
                        SECTOR_CHALLENGES as int,
                    ) by {
                        self.lemma_push_keeps_sector(
                            pub_inputs@,
                            element,
                            s,
                            SECTOR_CHALLENGES as int,
                        );
                    }
                    self.lemma_push_keeps_sector(pub_inputs@, element, slot as int, c as int);
                    let longer = pub_inputs@.push(element);
                    assert(longer[11 * slot + 1 + c] == element);
                    assert(self.holds_sector(longer, slot as int, c + 1));
                }
                pub_inputs.push(element);
                c += 1;
            }
            slot += 1;
        }
        proof {
            assert forall|s: int| 0 <= s < self.comms_r@.len() implies pub_inputs@[spec_comm_r_row(
                s,
            )] == (#[trigger] self.comms_r@[s]).unwrap() by {
                assert(spec_comm_r_row(s) == 11 * s);
                assert(self.holds_sector(pub_inputs@, s, SECTOR_CHALLENGES as int));
            }
            assert forall|s: int, i: int|
                0 <= s < self.challenges@.len() && 0 <= i < SECTOR_CHALLENGES implies pub_inputs@[spec_challenge_row(
                s,
                i,
            )]@ == field_bytes_of((#[trigger] self.challenges@[s][i]).unwrap() as u64) by {
                assert(spec_challenge_row(s, i) == 11 * s + 1 + i);
                assert(self.holds_sector(pub_inputs@, s, SECTOR_CHALLENGES as int));
            }
        }
        let mut columns: Vec<Vec<FieldBytes>> = Vec::new();
        columns.push(pub_inputs);
        columns
    }
}

/// One partition's sector proofs, the circuit's witnesses: a proof for each
/// slot of the partition, padding included.
#[derive(Clone)]
pub struct PrivateInputs<P, const SECTOR_NODES: usize> {
    pub sector_proofs: Vec<P>,
}

impl<P, const SECTOR_NODES: usize> PrivateInputs<P, SECTOR_NODES> {
    /// Takes the sector proofs of one partition, which are already padded
    /// where padding is necessary.
    pub fn from(sector_proofs: Vec<P>) -> (inputs: Self)
        requires
            sector_proofs@.len() == spec_sectors_challenged_per_partition(SECTOR_NODES),
        ensures
            inputs.sector_proofs@ == sector_proofs@,
    {
        PrivateInputs { sector_proofs }
    }
}

impl<P: Clone, const SECTOR_NODES: usize> PrivateInputs<P, SECTOR_NODES> {
    /// The witnesses of a circuit without witnesses: a copy of the blank
    /// proof in each slot of a partition.
    pub fn empty(blank: &P) -> (inputs: Self)
        ensures
            inputs.sector_proofs@.len() == spec_sectors_challenged_per_partition(SECTOR_NODES),
            forall|slot: int|
                0 <= slot < inputs.sector_proofs@.len() ==> cloned(
                    *blank,
                    #[trigger] inputs.sector_proofs@[slot],
                ),
    {
        let challenged_sectors = sectors_challenged_per_partition(SECTOR_NODES);
        let mut sector_proofs: Vec<P> = Vec::with_capacity(challenged_sectors);
        let mut slot: usize = 0;
        while slot < challenged_sectors
            invariant
                slot <= challenged_sectors,
                sector_proofs@.len() == slot,
                forall|s: int| 0 <= s < slot ==> cloned(*blank, #[trigger] sector_proofs@[s]),
            decreases challenged_sectors - slot,
        {
            sector_proofs.push(blank.clone());
            slot += 1;
        }
        PrivateInputs { sector_proofs }
    }
}

/// The number of rows that the circuit of a sector size needs, as a power of
/// two, or nothing for a size that has no circuit.
pub open spec fn circuit_rows_log2(
    sector_nodes: usize,
    groth16_partitioning: bool,
    strength_is_std: bool,
) -> Option<u32> {
    if sector_nodes == SECTOR_NODES_2_KIB {
        Some(
            if groth16_partitioning && strength_is_std {
                12u32
            } else if groth16_partitioning || strength_is_std {
                11u32
            } else {
                10u32
            },
        )
    } else if sector_nodes == SECTOR_NODES_4_KIB || sector_nodes == SECTOR_NODES_16_KIB
        || sector_nodes == SECTOR_NODES_32_KIB {
        Some(
            if groth16_partitioning && strength_is_std {
                13u32
            } else if groth16_partitioning || strength_is_std {
                12u32
            } else {
                11u32
            },
        )
    } else if sector_nodes == SECTOR_NODES_512_MIB {
        Some(
            if groth16_partitioning && strength_is_std {
                14u32
            } else if groth16_partitioning || strength_is_std {
                13u32
            } else {
                12u32
            },
        )
    } else if sector_nodes == SECTOR_NODES_32_GIB {
        if groth16_partitioning {
            if strength_is_std {
                Some(24u32)
            } else {
                None
            }
        } else if strength_is_std {
            Some(13u32)
        } else {
            Some(12u32)
        }
    } else if sector_nodes == SECTOR_NODES_64_GIB {
        if groth16_partitioning {
            if strength_is_std {
                Some(24u32)
            } else {
                None
            }
        } else {
            Some(13u32)
        }
    } else {
        None
    }
}

/// The circuit of one partition of a window proof.
#[derive(Clone)]
pub struct WindowPostCircuit<P, const SECTOR_NODES: usize> {
    pub pub_inputs: PublicInputs<SECTOR_NODES>,
    pub priv_inputs: PrivateInputs<P, SECTOR_NODES>,
}

impl<P, const SECTOR_NODES: usize> WindowPostCircuit<P, SECTOR_NODES> {
    /// The number of rows that the circuit needs, as a power of two, at
    /// standard or reduced hashing strength. Nothing is returned for a sector
    /// size that has no circuit.
    pub fn k(&self, strength_is_std: bool) -> (k: Option<u32>)
        ensures
            k == circuit_rows_log2(SECTOR_NODES, GROTH16_PARTITIONING, strength_is_std),
    {
        let base: u32 = if SECTOR_NODES == SECTOR_NODES_2_KIB {
            10
        } else if SECTOR_NODES == SECTOR_NODES_4_KIB || SECTOR_NODES == SECTOR_NODES_16_KIB
            || SECTOR_NODES == SECTOR_NODES_32_KIB {
            11
        } else if SECTOR_NODES == SECTOR_NODES_512_MIB {
            12
        } else if SECTOR_NODES == SECTOR_NODES_32_GIB || SECTOR_NODES == SECTOR_NODES_64_GIB {
            return match (GROTH16_PARTITIONING, strength_is_std) {
                (true, true) => Some(24),
                (true, false) => None,
                (false, true) => Some(13),
                (false, false) => Some(if SECTOR_NODES == SECTOR_NODES_32_GIB {
                    12
                } else {
                    13
                }),
            };
        } else {
            return None;
        };
        let partitioning: u32 = if GROTH16_PARTITIONING {
            1
        } else {
            0
        };
        let strength: u32 = if strength_is_std {
            1
        } else {
            0
        };
        Some(base + partitioning + strength)
    }

    /// The size of the circuit's sectors in KiB.
    pub fn sector_size(&self) -> (kib: usize)
        requires
            SECTOR_NODES * NODE_SIZE <= usize::MAX,
        ensures
            kib == (SECTOR_NODES * NODE_SIZE) / 1024,
    {
        (SECTOR_NODES * NODE_SIZE) / 1024
    }
}

impl<P: Clone, const SECTOR_NODES: usize> WindowPostCircuit<P, SECTOR_NODES> {
    /// A circuit of the same shape with no value known.
    pub fn without_witnesses(&self, blank: &P) -> (circuit: Self)
        ensures
            circuit.is_blank(),
    {
        Self::blank_circuit(blank)
    }

    /// Whether the circuit has a slot for each challenged sector of a
    /// partition and knows no public input.
    pub open spec fn is_blank(self) -> bool {
        let challenged_sectors = spec_sectors_challenged_per_partition(SECTOR_NODES);
        &&& self.pub_inputs.comms_r@.len() == challenged_sectors
        &&& self.pub_inputs.challenges@.len() == challenged_sectors
        &&& self.priv_inputs.sector_proofs@.len() == challenged_sectors
        &&& forall|slot: int|
            0 <= slot < challenged_sectors ==> (#[trigger] self.pub_inputs.comms_r@[slot]).is_none()
        &&& forall|slot: int, i: int|
            0 <= slot < challenged_sectors && 0 <= i < SECTOR_CHALLENGES ==> (
            #[trigger] self.pub_inputs.challenges@[slot][i]).is_none()
    }

    /// The circuit with no value known: blank proofs and empty public inputs.
    pub fn blank_circuit(blank: &P) -> (circuit: Self)
        ensures
            circuit.is_blank(),
    {
        WindowPostCircuit {
            pub_inputs: PublicInputs::empty(),
            priv_inputs: PrivateInputs::empty(blank),
        }
    }
}

/// How one run of the prover on a circuit with `2^k` rows ended.
#[derive(Clone, Copy, Debug, PartialEq, Eq)]
pub enum ProverOutcome {
    /// The circuit fits.
    Satisfied,
    /// The circuit needs more rows than there are.
    NotEnoughRows,
    /// The instance column needs more rows than there are.
    InstanceTooLarge,
    /// The prover failed for another reason.
    Failed,
}

/// What the search for the least sufficient `k` does next.
#[derive(Clone, Copy, Debug, PartialEq, Eq)]
pub enum KSearch {
    /// The search is over: the circuit fits in `2^k` rows.
    Found(u32),
    /// The prover is to run again with this `k`.
    Retry(u32),
    /// The search cannot go on.
    Abort,
}

/// The `k` at which the search starts: the one given, or the least that the
/// hash function's own circuit needs.
pub fn k_search_start(k_start: Option<u32>) -> (k: u32)
    ensures
        k == (if k_start.is_some() {
            k_start.unwrap()
        } else {
            7u32
        }),
{
    match k_start {
        Some(k) => k,
        None => 7,
    }
}

/// Decides the next step of the search from the outcome of the run with `k`:
/// a circuit that fits ends it, one that lacks rows is tried with one more,
/// and any other failure, or a `k` that cannot grow, stops it.
pub fn k_search_step(k: u32, outcome: ProverOutcome) -> (next: KSearch)
    ensures
        outcome == ProverOutcome::Satisfied ==> next == KSearch::Found(k),
        (outcome == ProverOutcome::NotEnoughRows || outcome == ProverOutcome::InstanceTooLarge)
            && k < u32::MAX ==> next == KSearch::Retry((k + 1) as u32),
        (outcome == ProverOutcome::NotEnoughRows || outcome == ProverOutcome::InstanceTooLarge)
            && k == u32::MAX ==> next == KSearch::Abort,
        outcome == ProverOutcome::Failed ==> next == KSearch::Abort,
{
    match outcome {
        ProverOutcome::Satisfied => KSearch::Found(k),
        ProverOutcome::NotEnoughRows | ProverOutcome::InstanceTooLarge => {
            if k < u32::MAX {
                KSearch::Retry(k + 1)
            } else {
                KSearch::Abort
            }
        },
        ProverOutcome::Failed => KSearch::Abort,
    }
}

} // verus!
