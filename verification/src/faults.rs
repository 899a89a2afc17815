//! Faulty sectors: a batch of sectors is proved sector by sector, and the
//! sectors that cannot be proved are reported together, by id.

use vstd::prelude::*;

verus! {

/// Whether one sector of a batch could be proved.
#[derive(Clone, Copy, Debug, PartialEq, Eq)]
pub struct SectorCheck {
    pub sector_id: u64,
    pub provable: bool,
}

/// The sectors of a batch that could not be proved, in the batch's order.
#[derive(Clone, Debug, PartialEq, Eq)]
pub struct FaultySectors {
    pub ids: Vec<u64>,
}

/// The ids of the sectors that could not be proved, in the batch's order.
pub open spec fn faulty_ids(checks: Seq<SectorCheck>) -> Seq<u64>
    decreases checks.len(),
{
    if checks.len() == 0 {
        Seq::empty()
    } else if checks.last().provable {
        faulty_ids(checks.drop_last())
    } else {
        faulty_ids(checks.drop_last()).push(checks.last().sector_id)
    }
}

/// The number of sectors that could not be proved.
pub open spec fn faulty_count(checks: Seq<SectorCheck>) -> nat
    decreases checks.len(),
{
    if checks.len() == 0 {
        0
    } else if checks.last().provable {
        faulty_count(checks.drop_last())
    } else {
        faulty_count(checks.drop_last()) + 1
    }
}

/// Whether no two sectors of the batch share an id.
pub open spec fn ids_are_distinct(checks: Seq<SectorCheck>) -> bool {
    forall|i: int, j: int|
        0 <= i < j < checks.len() ==> checks[i].sector_id != checks[j].sector_id
}

/// Reports the sectors of a batch that could not be proved. A batch succeeds
/// only when every sector is provable; otherwise every faulty sector is named,
/// and no other.
pub fn check_sectors(checks: &Vec<SectorCheck>) -> (result: Result<(), FaultySectors>)
    ensures
        faulty_ids(checks@).len() == 0 ==> result.is_ok(),
        faulty_ids(checks@).len() > 0 ==> result.is_err() && result.unwrap_err().ids@
            == faulty_ids(checks@),
{
    let mut ids: Vec<u64> = Vec::new();
    let mut i: usize = 0;
    while i < checks.len()
        invariant
            i <= checks@.len(),
            ids@ == faulty_ids(checks@.subrange(0, i as int)),
        decreases checks@.len() - i,
    {
        proof {
            let next = checks@.subrange(0, i + 1);
            assert(next.drop_last() =~= checks@.subrange(0, i as int));
            assert(next.last() == checks@[i as int]);
        }
        if !checks[i].provable {
            ids.push(checks[i].sector_id);
        }
        i += 1;
    }
    assert(checks@.subrange(0, i as int) =~= checks@);
    if ids.len() == 0 {
        Ok(())
    } else {
        Err(FaultySectors { ids })
    }
}

/// Exactly the faulty sectors are reported: as many ids as there are faulty
/// sectors, each the id of a faulty sector, and the id of every faulty sector.
pub proof fn lemma_faults_are_exact(checks: Seq<SectorCheck>)
    ensures
        faulty_ids(checks).len() == faulty_count(checks),
        faulty_count(checks) <= checks.len(),
        forall|id: u64|
            faulty_ids(checks).contains(id) <==> exists|i: int|
                0 <= i < checks.len() && !(#[trigger] checks[i]).provable && checks[i].sector_id
                    == id,
    decreases checks.len(),
{
    if checks.len() > 0 {
        let rest = checks.drop_last();
        let last = checks.last();
        lemma_faults_are_exact(rest);
        assert forall|id: u64|
            faulty_ids(checks).contains(id) <==> exists|i: int|
                0 <= i < checks.len() && !(#[trigger] checks[i]).provable && checks[i].sector_id
                    == id by {
            if faulty_ids(checks).contains(id) {
                let at = choose|at: int|
                    0 <= at < faulty_ids(checks).len() && faulty_ids(checks)[at] == id;
                if !last.provable && at == faulty_ids(rest).len() {
                    assert(!checks[checks.len() - 1].provable);
                } else {
                    assert(faulty_ids(rest)[at] == id);
                    assert(faulty_ids(rest).contains(id));
                    let i = choose|i: int|
                        0 <= i < rest.len() && !(#[trigger] rest[i]).provable && rest[i].sector_id
                            == id;
                    assert(checks[i] == rest[i]);
                }
            }
            if exists|i: int|
                0 <= i < checks.len() && !(#[trigger] checks[i]).provable && checks[i].sector_id
                    == id {
                let i = choose|i: int|
                    0 <= i < checks.len() && !(#[trigger] checks[i]).provable
                        && checks[i].sector_id == id;
                if i == checks.len() - 1 {
                    assert(faulty_ids(checks)[faulty_ids(rest).len() as int] == id);
                } else {
                    assert(rest[i] == checks[i]);
                    assert(faulty_ids(rest).contains(id));
                    let at = choose|at: int|
                        0 <= at < faulty_ids(rest).len() && faulty_ids(rest)[at] == id;
                    assert(faulty_ids(checks)[at] == id);
                }
            }
        }
    }
}

/// No provable sector is reported as faulty, when no two sectors share an id.
pub proof fn lemma_provable_sectors_are_not_reported(checks: Seq<SectorCheck>, i: int)
    requires
        ids_are_distinct(checks),
        0 <= i < checks.len(),
        checks[i].provable,
    ensures
        !faulty_ids(checks).contains(checks[i].sector_id),
{
    lemma_faults_are_exact(checks);
    if faulty_ids(checks).contains(checks[i].sector_id) {
        let j = choose|j: int|
            0 <= j < checks.len() && !(#[trigger] checks[j]).provable && checks[j].sector_id
                == checks[i].sector_id;
        assert(i != j);
        if i < j {
            assert(checks[i].sector_id != checks[j].sector_id);
        } else {
            assert(checks[j].sector_id != checks[i].sector_id);
        }
    }
}

} // verus!
