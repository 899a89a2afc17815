//! The Merkle leaves that a sector is challenged on, derived from public
//! randomness so that prover and verifier arrive at the same leaves.

use crate::hashing::{sha256, sha256_digest};
use crate::le_bytes::{le_value, lemma_u64_from_bytes_is_their_value};
use crate::partition::{sectors_challenged_per_partition, spec_sectors_challenged_per_partition};
use vstd::bytes::{spec_u64_to_le_bytes, u64_from_le_bytes, u64_to_le_bytes};
use vstd::prelude::*;
use vstd::slice::slice_subrange;

verus! {

/// The number of Merkle challenges per challenged sector.
pub const SECTOR_CHALLENGES: usize = 10;

/// The bytes hashed for one challenge: the randomness, then the sector's id
/// and the challenge's number, each as eight little-endian bytes.
pub open spec fn challenge_preimage(
    randomness: Seq<u8>,
    sector_id: u64,
    challenge_index: u64,
) -> Seq<u8> {
    randomness + spec_u64_to_le_bytes(sector_id) + spec_u64_to_le_bytes(challenge_index)
}

/// The leaf that a digest challenges: the number that its first eight bytes
/// spell, least significant byte first, reduced by the number of leaves, in
/// 32 bits.
pub open spec fn challenge_from_digest(digest: Seq<u8>, sector_nodes: u64) -> u32
    recommends
        digest.len() >= 8,
        sector_nodes > 0,
{
    ((le_value(digest.subrange(0, 8)) % (sector_nodes as nat)) % 0x1_0000_0000) as u32
}

/// A challenge is a leaf of the sector, for a sector whose leaves can be
/// numbered in 32 bits.
pub proof fn lemma_challenge_is_a_leaf(digest: Seq<u8>, sector_nodes: u64)
    requires
        0 < sector_nodes <= 0x1_0000_0000,
    ensures
        challenge_from_digest(digest, sector_nodes) < sector_nodes,
{
    let leaf = le_value(digest.subrange(0, 8)) % (sector_nodes as nat);
    assert(leaf < sector_nodes);
    assert(leaf % 0x1_0000_0000 == leaf);
}

/// The challenged leaf with the given number, for a sector and randomness.
pub open spec fn spec_challenge(
    randomness: Seq<u8>,
    sector_id: u64,
    challenge_index: u64,
    sector_nodes: u64,
) -> u32 {
    challenge_from_digest(
        sha256(challenge_preimage(randomness, sector_id, challenge_index)),
        sector_nodes,
    )
}

/// The number of the first challenge of the sector at `sector_index` of
/// partition `k`: challenges are numbered through all partitions.
pub open spec fn first_challenge_index(k: int, partition_sectors: int, sector_index: int) -> int {
    (k * partition_sectors + sector_index) * SECTOR_CHALLENGES
}

/// Builds the bytes that are hashed for one challenge.
pub fn challenge_input(randomness: &[u8; 32], sector_id: u64, challenge_index: u64) -> (input:
    Vec<u8>)
    ensures
        input@ == challenge_preimage(randomness@, sector_id, challenge_index),
{
    let id_bytes = u64_to_le_bytes(sector_id);
    let index_bytes = u64_to_le_bytes(challenge_index);
    let mut input: Vec<u8> = Vec::with_capacity(48);
    let mut i: usize = 0;
    while i < 32
        invariant
            i <= 32,
            input@ == randomness@.subrange(0, i as int),
        decreases 32 - i,
    {
        input.push(randomness[i]);
        i += 1;
        assert(input@ =~= randomness@.subrange(0, i as int));
    }
    assert(randomness@.subrange(0, 32) =~= randomness@);
    let mut j: usize = 0;
    while j < 8
        invariant
            j <= 8,
            id_bytes@.len() == 8,
            input@ == randomness@ + id_bytes@.subrange(0, j as int),
        decreases 8 - j,
    {
        input.push(id_bytes[j]);
        j += 1;
        assert(input@ =~= randomness@ + id_bytes@.subrange(0, j as int));
    }
    assert(id_bytes@.subrange(0, 8) =~= id_bytes@);
    let mut l: usize = 0;
    while l < 8
        invariant
            l <= 8,
            index_bytes@.len() == 8,
            input@ == randomness@ + id_bytes@ + index_bytes@.subrange(0, l as int),
        decreases 8 - l,
    {
        input.push(index_bytes[l]);
        l += 1;
        assert(input@ =~= randomness@ + id_bytes@ + index_bytes@.subrange(0, l as int));
    }
    assert(index_bytes@.subrange(0, 8) =~= index_bytes@);
    input
}

/// Reads the challenged leaf off a digest.
pub fn challenge_of_digest(digest: &[u8; 32], sector_nodes: u64) -> (challenge: u32)
    requires
        sector_nodes > 0,
    ensures
        challenge == challenge_from_digest(digest@, sector_nodes),
{
    let head = slice_subrange(digest.as_slice(), 0, 8);
    let uint64 = u64_from_le_bytes(head);
    proof {
        lemma_u64_from_bytes_is_their_value(head@);
    }
    let leaf = uint64 % sector_nodes;
    let low = leaf % 0x1_0000_0000;
    low as u32
}

/// Derives the challenged leaves of one sector: `SECTOR_CHALLENGES` leaves of
/// a sector of `SECTOR_NODES` leaves, for the sector at `sector_index` of
/// partition `k`. The leaves depend on nothing but the arguments, so a
/// verifier that is given the same randomness derives the same leaves.
pub fn generate_challenges<const SECTOR_NODES: usize>(
    randomness: &[u8; 32],
    k: usize,
    sector_index: usize,
    sector_id: u64,
) -> (challenges: [u32; SECTOR_CHALLENGES])
    requires
        SECTOR_NODES > 0,
        first_challenge_index(
            k as int,
            spec_sectors_challenged_per_partition(SECTOR_NODES) as int,
            sector_index as int,
        ) + SECTOR_CHALLENGES <= usize::MAX,
    ensures
        forall|i: int|
            0 <= i < SECTOR_CHALLENGES ==> #[trigger] challenges[i] == spec_challenge(
                randomness@,
                sector_id,
                (first_challenge_index(
                    k as int,
                    spec_sectors_challenged_per_partition(SECTOR_NODES) as int,
                    sector_index as int,
                ) + i) as u64,
                SECTOR_NODES as u64,
            ),
{
    let partition_sectors = sectors_challenged_per_partition(SECTOR_NODES);
    assert(k * partition_sectors >= 0 && k * partition_sectors + sector_index <= (k
        * partition_sectors + sector_index) * SECTOR_CHALLENGES) by (nonlinear_arith)
        requires
            k >= 0,
            partition_sectors >= 0,
            sector_index >= 0,
    ;
    let first = (k * partition_sectors + sector_index) * SECTOR_CHALLENGES;
    sector_challenges(randomness, sector_id, first, SECTOR_NODES)
}

/// Derives the `SECTOR_CHALLENGES` leaves whose challenges are numbered from
/// `first` on.
pub fn sector_challenges(
    randomness: &[u8; 32],
    sector_id: u64,
    first: usize,
    sector_nodes: usize,
) -> (challenges: [u32; SECTOR_CHALLENGES])
    requires
        sector_nodes > 0,
        first + SECTOR_CHALLENGES <= usize::MAX,
    ensures
        forall|i: int|
            0 <= i < SECTOR_CHALLENGES ==> #[trigger] challenges[i] == spec_challenge(
                randomness@,
                sector_id,
                (first + i) as u64,
                sector_nodes as u64,
            ),
{
    let mut challenges = [0u32;SECTOR_CHALLENGES];
    let mut i: usize = 0;
    while i < SECTOR_CHALLENGES
        invariant
            i <= SECTOR_CHALLENGES,
            sector_nodes > 0,
            first + SECTOR_CHALLENGES <= usize::MAX,
            forall|j: int|
                0 <= j < i ==> #[trigger] challenges[j] == spec_challenge(
                    randomness@,
                    sector_id,
                    (first + j) as u64,
                    sector_nodes as u64,
                ),
        decreases SECTOR_CHALLENGES - i,
    {
        let input = challenge_input(randomness, sector_id, (first + i) as u64);
        let digest = sha256_digest(input.as_slice());
        challenges[i] = challenge_of_digest(&digest, sector_nodes as u64);
        i += 1;
    }
    challenges
}

/// Whether the challenges that a proof claims for a sector are the ones
/// derived from the randomness: a verifier accepts no others.
pub fn challenges_are_derived<const SECTOR_NODES: usize>(
    randomness: &[u8; 32],
    k: usize,
    sector_index: usize,
    sector_id: u64,
    claimed: &[u32; SECTOR_CHALLENGES],
) -> (derived: bool)
    requires
        SECTOR_NODES > 0,
        first_challenge_index(
            k as int,
            spec_sectors_challenged_per_partition(SECTOR_NODES) as int,
            sector_index as int,
        ) + SECTOR_CHALLENGES <= usize::MAX,
    ensures
        derived == (forall|i: int|
            0 <= i < SECTOR_CHALLENGES ==> #[trigger] claimed[i] == spec_challenge(
                randomness@,
                sector_id,
                (first_challenge_index(
                    k as int,
                    spec_sectors_challenged_per_partition(SECTOR_NODES) as int,
                    sector_index as int,
                ) + i) as u64,
                SECTOR_NODES as u64,
            )),
{
    let expected = generate_challenges::<SECTOR_NODES>(randomness, k, sector_index, sector_id);
    let ghost first = first_challenge_index(
        k as int,
        spec_sectors_challenged_per_partition(SECTOR_NODES) as int,
        sector_index as int,
    );
    let mut i: usize = 0;
    while i < SECTOR_CHALLENGES
        invariant
            i <= SECTOR_CHALLENGES,
            first == first_challenge_index(
                k as int,
                spec_sectors_challenged_per_partition(SECTOR_NODES) as int,
                sector_index as int,
            ),
            forall|j: int|
                0 <= j < SECTOR_CHALLENGES ==> #[trigger] expected[j] == spec_challenge(
                    randomness@,
                    sector_id,
                    (first + j) as u64,
                    SECTOR_NODES as u64,
                ),
            forall|j: int| 0 <= j < i ==> #[trigger] claimed[j] == expected[j],
        decreases SECTOR_CHALLENGES - i,
    {
        if claimed[i] != expected[i] {
            assert(claimed[i as int] != spec_challenge(
                randomness@,
                sector_id,
                (first + i) as u64,
                SECTOR_NODES as u64,
            ));
            return false;
        }
        i += 1;
    }
    assert forall|j: int| 0 <= j < SECTOR_CHALLENGES implies #[trigger] claimed[j]
        == spec_challenge(
        randomness@,
        sector_id,
        (first + j) as u64,
        SECTOR_NODES as u64,
    ) by {
        assert(claimed[j] == expected[j]);
    }
    true
}

} // verus!
