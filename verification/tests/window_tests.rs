use halo2_proofs::arithmetic::FieldExt;
use halo2_proofs::pasta::{Fp, Fq};
use sector_proofs::challenge::{
    challenge_input, challenge_of_digest, challenges_are_derived, generate_challenges,
    sector_challenges, SECTOR_CHALLENGES,
};
use sector_proofs::partition::{
    partition_count, partition_sources, partitions_for, sectors_challenged_per_partition,
};
use sector_proofs::sector::{
    SECTOR_NODES_16_KIB, SECTOR_NODES_2_KIB, SECTOR_NODES_32_GIB, SECTOR_NODES_32_KIB,
    SECTOR_NODES_4_KIB, SECTOR_NODES_512_MIB, SECTOR_NODES_64_GIB,
};
use sector_proofs::window::{
    challenge_row, comm_r_row, field_from_u64, k_search_start, k_search_step, KSearch,
    PartitionError, PrivateInputs, ProverOutcome, PublicInputs, PublicSector, VanillaPublicInputs,
    WindowPostCircuit,
};
use sha2::{Digest, Sha256};

fn counting_bytes() -> [u8; 32] {
    let mut bytes = [0u8; 32];
    for (i, byte) in bytes.iter_mut().enumerate() {
        *byte = i as u8;
    }
    bytes
}

fn comm(tag: u8) -> [u8; 32] {
    let mut bytes = [0u8; 32];
    bytes[0] = tag;
    bytes
}

fn four_sectors(k: Option<usize>) -> VanillaPublicInputs {
    VanillaPublicInputs {
        randomness: counting_bytes(),
        prover_id: [9u8; 32],
        sectors: vec![
            PublicSector { id: 10, comm_r: comm(1) },
            PublicSector { id: 11, comm_r: comm(2) },
            PublicSector { id: 12, comm_r: comm(3) },
            PublicSector { id: 13, comm_r: comm(4) },
        ],
        k,
    }
}

fn known(challenges: [u32; 10]) -> [Option<u32>; 10] {
    let mut out = [None; 10];
    for i in 0..10 {
        out[i] = Some(challenges[i]);
    }
    out
}

fn repr<F: FieldExt>(element: F) -> Vec<u8> {
    element.to_repr().as_ref().to_vec()
}

const SECTOR_0: [u32; 10] = [16, 13, 28, 41, 27, 31, 25, 11, 60, 27];
const SECTOR_1: [u32; 10] = [34, 6, 56, 28, 56, 8, 57, 27, 39, 27];
const SECTOR_2: [u32; 10] = [25, 25, 39, 38, 50, 7, 4, 53, 46, 29];
const SECTOR_3: [u32; 10] = [50, 38, 4, 48, 37, 1, 24, 5, 63, 40];

#[test]
fn one_sector_is_challenged_per_partition() {
    assert_eq!(sectors_challenged_per_partition(SECTOR_NODES_2_KIB), 1);
    assert_eq!(sectors_challenged_per_partition(SECTOR_NODES_32_GIB), 1);
    assert_eq!(sectors_challenged_per_partition(SECTOR_NODES_64_GIB), 1);
    assert_eq!(sectors_challenged_per_partition(7), 1);
}

#[test]
fn partition_count_is_the_number_of_sectors() {
    assert_eq!(partition_count::<SECTOR_NODES_2_KIB>(0), 0);
    assert_eq!(partition_count::<SECTOR_NODES_2_KIB>(1), 1);
    assert_eq!(partition_count::<SECTOR_NODES_32_GIB>(5), 5);
    assert_eq!(partition_count::<SECTOR_NODES_64_GIB>(2349), 2349);
}

#[test]
fn partition_count_is_exact_for_large_sets() {
    assert_eq!(partition_count::<SECTOR_NODES_2_KIB>(16777217), 16777217);
    assert_eq!(partitions_for(16777217, 2), 8388609);
}

#[test]
fn partitions_round_up() {
    assert_eq!(partitions_for(0, 3), 0);
    assert_eq!(partitions_for(1, 3), 1);
    assert_eq!(partitions_for(3, 3), 1);
    assert_eq!(partitions_for(4, 3), 2);
    assert_eq!(partitions_for(4, 2), 2);
    assert_eq!(partitions_for(5, 2), 3);
    assert_eq!(partitions_for(2349, 2349), 1);
    assert_eq!(partitions_for(2350, 2349), 2);
    assert_eq!(partitions_for(usize::MAX, 1), usize::MAX);
    assert_eq!(partitions_for(usize::MAX, usize::MAX), 1);
}

#[test]
fn a_set_one_short_of_two_partitions_takes_two() {
    for size in 2..50usize {
        assert_eq!(partitions_for(2 * size - 1, size), 2);
        assert_eq!(partitions_for(2 * size, size), 2);
    }
}

#[test]
fn rows_of_the_instance_column() {
    assert_eq!(comm_r_row(0), 0);
    assert_eq!(challenge_row(0, 0), 1);
    assert_eq!(challenge_row(0, 9), 10);
    assert_eq!(comm_r_row(1), 11);
    assert_eq!(comm_r_row(2), 22);
    assert_eq!(challenge_row(2, 3), 26);
}

#[test]
fn challenge_input_is_randomness_then_id_then_index() {
    let input = challenge_input(&counting_bytes(), 0x0102030405060708, 0x1112131415161718);
    assert_eq!(input.len(), 48);
    assert_eq!(&input[..32], &counting_bytes()[..]);
    assert_eq!(&input[32..40], &[8, 7, 6, 5, 4, 3, 2, 1]);
    assert_eq!(&input[40..], &[0x18, 0x17, 0x16, 0x15, 0x14, 0x13, 0x12, 0x11]);
}

#[test]
fn challenge_of_digest_reads_eight_bytes_little_endian() {
    let mut digest = [0u8; 32];
    digest[0] = 1;
    digest[1] = 1;
    digest[8] = 77;
    assert_eq!(challenge_of_digest(&digest, 64), 1);
    assert_eq!(challenge_of_digest(&digest, 1000), 257);
    assert_eq!(challenge_of_digest(&digest, 1), 0);
    assert_eq!(challenge_of_digest(&digest, 257), 0);
    assert_eq!(challenge_of_digest(&[255u8; 32], 1 << 30), (1 << 30) - 1);
    assert_eq!(challenge_of_digest(&[255u8; 32], u64::MAX), 0);
}

#[test]
fn challenge_of_digest_keeps_the_low_32_bits() {
    let mut digest = [0u8; 32];
    digest[0] = 5;
    digest[4] = 1;
    assert_eq!(challenge_of_digest(&digest, 1 << 40), 5);
    assert_eq!(challenge_of_digest(&digest, 1 << 32), 5);
}

#[test]
fn generate_challenges_for_zero_randomness() {
    let challenges = generate_challenges::<SECTOR_NODES_2_KIB>(&[0u8; 32], 0, 0, 0);
    assert_eq!(challenges, [23, 7, 15, 22, 21, 39, 40, 36, 19, 23]);
}

#[test]
fn generate_challenges_numbers_challenges_through_partitions() {
    let challenges = generate_challenges::<SECTOR_NODES_32_GIB>(&counting_bytes(), 3, 0, 7);
    assert_eq!(
        challenges,
        [
            539744758, 835595011, 900891028, 49467697, 261129478, 823746970, 462860795,
            1022165948, 1059952661, 426017134
        ]
    );
    let challenges = generate_challenges::<SECTOR_NODES_512_MIB>(&counting_bytes(), 0, 2, 7);
    assert_eq!(
        challenges,
        [
            10850038, 13686145, 15810920, 116967, 10105652, 1541970, 8268855, 9133836, 11559718,
            9413287
        ]
    );
}

#[test]
fn generate_challenges_is_reproducible() {
    let a = generate_challenges::<SECTOR_NODES_32_KIB>(&counting_bytes(), 4, 0, 99);
    let b = generate_challenges::<SECTOR_NODES_32_KIB>(&counting_bytes(), 4, 0, 99);
    assert_eq!(a, b);
    let other_sector = generate_challenges::<SECTOR_NODES_32_KIB>(&counting_bytes(), 4, 0, 98);
    assert_ne!(a, other_sector);
    let other_partition = generate_challenges::<SECTOR_NODES_32_KIB>(&counting_bytes(), 5, 0, 99);
    assert_ne!(a, other_partition);
    assert!(a.iter().all(|c| (*c as usize) < SECTOR_NODES_32_KIB));
}

#[test]
fn generate_challenges_agrees_with_an_incremental_hasher() {
    let randomness = counting_bytes();
    let sector_id: u64 = 4242;
    let mut hasher = Sha256::new();
    hasher.update(randomness);
    hasher.update(sector_id.to_le_bytes());
    let challenges = generate_challenges::<SECTOR_NODES_16_KIB>(&randomness, 6, 0, sector_id);
    for i in 0..SECTOR_CHALLENGES {
        let mut hasher = hasher.clone();
        hasher.update(((6 * SECTOR_CHALLENGES + i) as u64).to_le_bytes());
        let digest = hasher.finalize();
        let mut head = [0u8; 8];
        head.copy_from_slice(&digest[..8]);
        let expected = (u64::from_le_bytes(head) % SECTOR_NODES_16_KIB as u64) as u32;
        assert_eq!(challenges[i], expected);
    }
}

#[test]
fn sector_challenges_truncate_leaves_beyond_32_bits() {
    let challenges = sector_challenges(&[0u8; 32], 1, 0, (1usize << 40) + 7);
    assert_eq!(&challenges[..3], &[611161711, 364516374, 2014577615]);
}

#[test]
fn field_from_u64_is_the_little_endian_encoding() {
    assert_eq!(field_from_u64(0), [0u8; 32]);
    let mut expected = [0u8; 32];
    expected[0] = 5;
    assert_eq!(field_from_u64(5), expected);
    let mut expected = [0u8; 32];
    expected[..8].copy_from_slice(&[8, 7, 6, 5, 4, 3, 2, 1]);
    assert_eq!(field_from_u64(0x0102030405060708), expected);
}

#[test]
fn field_from_u64_agrees_with_the_pasta_fields() {
    for value in [0u64, 1, 63, 4294967295, 4294967296, u64::MAX] {
        assert_eq!(field_from_u64(value).to_vec(), repr(Fp::from(value)));
        assert_eq!(field_from_u64(value).to_vec(), repr(Fq::from(value)));
    }
}

#[test]
fn public_inputs_need_a_partition_index() {
    let result = PublicInputs::<SECTOR_NODES_2_KIB>::from(&four_sectors(None));
    assert_eq!(result, Err(PartitionError::MissingPartitionIndex));
}

#[test]
fn public_inputs_need_a_partition_in_range() {
    let result = PublicInputs::<SECTOR_NODES_2_KIB>::from(&four_sectors(Some(4)));
    assert_eq!(result, Err(PartitionError::PartitionOutOfRange));
    let result = PublicInputs::<SECTOR_NODES_2_KIB>::for_partition(&four_sectors(Some(2)), 3);
    assert_eq!(result, Err(PartitionError::PartitionOutOfRange));
    let mut none = four_sectors(Some(0));
    none.sectors.clear();
    let result = PublicInputs::<SECTOR_NODES_2_KIB>::from(&none);
    assert_eq!(result, Err(PartitionError::PartitionOutOfRange));
}

#[test]
fn public_inputs_of_each_partition() {
    let expected = [SECTOR_0, SECTOR_1, SECTOR_2, SECTOR_3];
    for k in 0..4usize {
        let inputs = PublicInputs::<SECTOR_NODES_2_KIB>::from(&four_sectors(Some(k))).unwrap();
        assert_eq!(inputs.comms_r, vec![Some(comm(k as u8 + 1))]);
        assert_eq!(inputs.challenges, vec![known(expected[k])]);
        assert_eq!(
            expected[k],
            generate_challenges::<SECTOR_NODES_2_KIB>(&counting_bytes(), k, 0, 10 + k as u64)
        );
    }
}

#[test]
fn public_inputs_of_a_full_partition() {
    let inputs =
        PublicInputs::<SECTOR_NODES_2_KIB>::for_partition(&four_sectors(Some(0)), 3).unwrap();
    assert_eq!(inputs.comms_r, vec![Some(comm(1)), Some(comm(2)), Some(comm(3))]);
    assert_eq!(
        inputs.challenges,
        vec![known(SECTOR_0), known(SECTOR_1), known(SECTOR_2)]
    );
}

#[test]
fn public_inputs_pad_the_last_partition_with_the_last_sector() {
    let inputs =
        PublicInputs::<SECTOR_NODES_2_KIB>::for_partition(&four_sectors(Some(1)), 3).unwrap();
    assert_eq!(inputs.comms_r, vec![Some(comm(4)), Some(comm(4)), Some(comm(4))]);
    assert_eq!(
        inputs.challenges,
        vec![known(SECTOR_3), known(SECTOR_3), known(SECTOR_3)]
    );
}

#[test]
fn a_short_set_shows_the_same_sectors_as_the_set_padded_by_hand() {
    let mut short = four_sectors(None);
    short.sectors.truncate(3);
    let mut padded = short.clone();
    padded.sectors.push(short.sectors[2]);
    assert_eq!(partitions_for(short.sectors.len(), 2), 2);
    assert_eq!(partitions_for(padded.sectors.len(), 2), 2);
    for k in 0..2usize {
        short.k = Some(k);
        padded.k = Some(k);
        let from_short = PublicInputs::<SECTOR_NODES_2_KIB>::for_partition(&short, 2).unwrap();
        let from_padded = PublicInputs::<SECTOR_NODES_2_KIB>::for_partition(&padded, 2).unwrap();
        assert_eq!(from_short.comms_r.len(), 2);
        assert_eq!(from_short.challenges.len(), 2);
        assert_eq!(from_short.comms_r, from_padded.comms_r);
        assert_eq!(from_short.challenges[0], from_padded.challenges[0]);
    }
    short.k = Some(1);
    let last = PublicInputs::<SECTOR_NODES_2_KIB>::for_partition(&short, 2).unwrap();
    assert_eq!(last.comms_r, vec![Some(comm(3)), Some(comm(3))]);
    assert_eq!(last.challenges, vec![known(SECTOR_2), known(SECTOR_2)]);
}

#[test]
fn empty_public_inputs_know_nothing() {
    let inputs = PublicInputs::<SECTOR_NODES_4_KIB>::empty();
    assert_eq!(inputs.comms_r, vec![None]);
    assert_eq!(inputs.challenges, vec![[None; 10]]);
}

#[test]
fn uniform_public_inputs() {
    let inputs = PublicInputs::<SECTOR_NODES_4_KIB>::uniform(Some([0u8; 32]), Some(0));
    assert_eq!(inputs.comms_r, vec![Some([0u8; 32])]);
    assert_eq!(inputs.challenges, vec![[Some(0); 10]]);
}

#[test]
fn to_vec_lays_out_one_instance_column() {
    let inputs =
        PublicInputs::<SECTOR_NODES_2_KIB>::for_partition(&four_sectors(Some(0)), 3).unwrap();
    let columns = inputs.to_vec();
    assert_eq!(columns.len(), 1);
    let column = &columns[0];
    assert_eq!(column.len(), 33);
    let expected = [SECTOR_0, SECTOR_1, SECTOR_2];
    for sector in 0..3 {
        assert_eq!(column[comm_r_row(sector)], comm(sector as u8 + 1));
        for i in 0..10 {
            assert_eq!(
                column[challenge_row(sector, i)],
                field_from_u64(expected[sector][i] as u64)
            );
        }
    }
    assert_eq!(column[0], comm(1));
    assert_eq!(column[1], field_from_u64(16));
    assert_eq!(column[11], comm(2));
    assert_eq!(column[32], field_from_u64(29));
}

#[test]
fn to_vec_of_no_sectors_is_one_empty_column() {
    let inputs = PublicInputs::<SECTOR_NODES_2_KIB> { comms_r: vec![], challenges: vec![] };
    assert_eq!(inputs.to_vec(), vec![Vec::<[u8; 32]>::new()]);
}

#[test]
fn private_inputs_hold_one_proof_per_slot() {
    let inputs = PrivateInputs::<u8, SECTOR_NODES_2_KIB>::from(vec![7]);
    assert_eq!(inputs.sector_proofs, vec![7]);
    let blank = PrivateInputs::<String, SECTOR_NODES_2_KIB>::empty(&"blank".to_string());
    assert_eq!(blank.sector_proofs, vec!["blank".to_string()]);
}

#[test]
fn blank_circuit_has_no_values() {
    let circuit = WindowPostCircuit::<u8, SECTOR_NODES_2_KIB>::blank_circuit(&0);
    assert_eq!(circuit.pub_inputs.comms_r, vec![None]);
    assert_eq!(circuit.pub_inputs.challenges, vec![[None; 10]]);
    assert_eq!(circuit.priv_inputs.sector_proofs, vec![0]);
    let inputs = PublicInputs::<SECTOR_NODES_2_KIB>::from(&four_sectors(Some(0))).unwrap();
    let full = WindowPostCircuit::<u8, SECTOR_NODES_2_KIB> {
        pub_inputs: inputs,
        priv_inputs: PrivateInputs::from(vec![5]),
    };
    let stripped = full.without_witnesses(&0);
    assert_eq!(stripped.pub_inputs.comms_r, vec![None]);
    assert_eq!(stripped.pub_inputs.challenges, vec![[None; 10]]);
    assert_eq!(stripped.priv_inputs.sector_proofs, vec![0]);
}

fn rows<const SECTOR_NODES: usize>(strength_is_std: bool) -> Option<u32> {
    WindowPostCircuit::<u8, SECTOR_NODES>::blank_circuit(&0).k(strength_is_std)
}

#[test]
fn circuit_rows_at_standard_strength() {
    assert_eq!(rows::<SECTOR_NODES_2_KIB>(true), Some(11));
    assert_eq!(rows::<SECTOR_NODES_4_KIB>(true), Some(12));
    assert_eq!(rows::<SECTOR_NODES_16_KIB>(true), Some(12));
    assert_eq!(rows::<SECTOR_NODES_32_KIB>(true), Some(12));
    assert_eq!(rows::<SECTOR_NODES_512_MIB>(true), Some(13));
    assert_eq!(rows::<SECTOR_NODES_32_GIB>(true), Some(13));
    assert_eq!(rows::<SECTOR_NODES_64_GIB>(true), Some(13));
}

#[test]
fn circuit_rows_at_reduced_strength() {
    assert_eq!(rows::<SECTOR_NODES_2_KIB>(false), Some(10));
    assert_eq!(rows::<SECTOR_NODES_4_KIB>(false), Some(11));
    assert_eq!(rows::<SECTOR_NODES_16_KIB>(false), Some(11));
    assert_eq!(rows::<SECTOR_NODES_32_KIB>(false), Some(11));
    assert_eq!(rows::<SECTOR_NODES_512_MIB>(false), Some(12));
    assert_eq!(rows::<SECTOR_NODES_32_GIB>(false), Some(12));
    assert_eq!(rows::<SECTOR_NODES_64_GIB>(false), Some(13));
}

#[test]
fn circuit_rows_of_an_unknown_size() {
    assert_eq!(rows::<256>(true), None);
    assert_eq!(rows::<256>(false), None);
}

#[test]
fn circuit_sector_size_is_in_kib() {
    let circuit = WindowPostCircuit::<u8, SECTOR_NODES_2_KIB>::blank_circuit(&0);
    assert_eq!(circuit.sector_size(), 2);
    let circuit = WindowPostCircuit::<u8, SECTOR_NODES_512_MIB>::blank_circuit(&0);
    assert_eq!(circuit.sector_size(), 524288);
    let circuit = WindowPostCircuit::<u8, SECTOR_NODES_64_GIB>::blank_circuit(&0);
    assert_eq!(circuit.sector_size(), 67108864);
}

#[test]
fn search_for_k_starts_at_seven() {
    assert_eq!(k_search_start(None), 7);
    assert_eq!(k_search_start(Some(11)), 11);
    assert_eq!(k_search_start(Some(0)), 0);
}

#[test]
fn search_for_k_steps() {
    assert_eq!(k_search_step(9, ProverOutcome::Satisfied), KSearch::Found(9));
    assert_eq!(k_search_step(9, ProverOutcome::NotEnoughRows), KSearch::Retry(10));
    assert_eq!(k_search_step(9, ProverOutcome::InstanceTooLarge), KSearch::Retry(10));
    assert_eq!(k_search_step(9, ProverOutcome::Failed), KSearch::Abort);
    assert_eq!(k_search_step(u32::MAX, ProverOutcome::NotEnoughRows), KSearch::Abort);
    assert_eq!(k_search_step(u32::MAX, ProverOutcome::Satisfied), KSearch::Found(u32::MAX));
}

#[test]
fn search_for_k_finds_the_least_sufficient_k() {
    let needed = 12;
    let mut k = k_search_start(None);
    let found = loop {
        let outcome = if k >= needed {
            ProverOutcome::Satisfied
        } else if k % 2 == 0 {
            ProverOutcome::InstanceTooLarge
        } else {
            ProverOutcome::NotEnoughRows
        };
        match k_search_step(k, outcome) {
            KSearch::Found(k) => break k,
            KSearch::Retry(next) => k = next,
            KSearch::Abort => panic!("the search stopped"),
        }
    };
    assert_eq!(found, 12);
}

#[test]
fn derived_challenges_are_accepted() {
    let claimed = generate_challenges::<SECTOR_NODES_2_KIB>(&counting_bytes(), 2, 0, 12);
    assert_eq!(claimed, SECTOR_2);
    assert!(challenges_are_derived::<SECTOR_NODES_2_KIB>(
        &counting_bytes(),
        2,
        0,
        12,
        &claimed
    ));
}

#[test]
fn other_challenges_are_rejected() {
    for i in 0..10 {
        let mut claimed = SECTOR_2;
        claimed[i] = (claimed[i] + 1) % 64;
        assert!(!challenges_are_derived::<SECTOR_NODES_2_KIB>(
            &counting_bytes(),
            2,
            0,
            12,
            &claimed
        ));
    }
    assert!(!challenges_are_derived::<SECTOR_NODES_2_KIB>(
        &counting_bytes(),
        3,
        0,
        12,
        &SECTOR_2
    ));
    assert!(!challenges_are_derived::<SECTOR_NODES_2_KIB>(
        &counting_bytes(),
        2,
        0,
        13,
        &SECTOR_2
    ));
    assert!(!challenges_are_derived::<SECTOR_NODES_2_KIB>(&[0u8; 32], 2, 0, 12, &SECTOR_2));
}

#[test]
fn partition_sources_name_the_sector_of_each_slot() {
    assert_eq!(partition_sources(4, 0, 3), Some(vec![0, 1, 2]));
    assert_eq!(partition_sources(6, 1, 3), Some(vec![3, 4, 5]));
    assert_eq!(partition_sources(5, 4, 1), Some(vec![4]));
}

#[test]
fn partition_sources_repeat_the_last_sector_in_free_slots() {
    assert_eq!(partition_sources(4, 1, 3), Some(vec![3, 3, 3]));
    assert_eq!(partition_sources(3, 1, 2), Some(vec![2, 2]));
    assert_eq!(partition_sources(5, 1, 3), Some(vec![3, 4, 4]));
    assert_eq!(partition_sources(1, 0, 4), Some(vec![0, 0, 0, 0]));
}

#[test]
fn partition_sources_end_with_the_sector_set() {
    assert_eq!(partition_sources(4, 2, 3), None);
    assert_eq!(partition_sources(0, 0, 1), None);
    assert_eq!(partition_sources(6, 2, 3), None);
    assert_eq!(partition_sources(usize::MAX, usize::MAX, 1), None);
}

#[test]
fn padding_by_hand_leaves_the_sources_in_place() {
    for size in 2..9usize {
        let short = 2 * size - 1;
        for k in 0..2 {
            let of_short = partition_sources(short, k, size).unwrap();
            let of_padded = partition_sources(short + 1, k, size).unwrap();
            for slot in 0..size {
                let shown = of_padded[slot].min(short - 1);
                assert_eq!(of_short[slot], shown);
            }
        }
    }
}

#[test]
fn every_sector_has_a_slot_of_its_own() {
    for size in 1..6usize {
        for total in 1..20usize {
            for index in 0..total {
                let sources = partition_sources(total, index / size, size).unwrap();
                assert_eq!(sources[index % size], index);
            }
            let shown: usize = (0..partitions_for(total, size))
                .map(|k| partition_sources(total, k, size).unwrap().len())
                .sum();
            assert_eq!(shown, partitions_for(total, size) * size);
        }
    }
}
