//! Reconciling a store's index with its contents.
use vstd::prelude::*;
use crate::error::PadzError;
use crate::model::Scope;
use crate::store::{recovered, DoctorReport, LooseV, Store};

verus! {

/// What a consistency check found.
#[derive(Clone, Copy, Debug, PartialEq, Eq, Structural)]
pub enum DoctorOutcome {
    Clean { missing_files: usize, recovered_files: usize },
    Repaired { missing_files: usize, recovered_files: usize },
}

/// Clean when nothing was repaired, else the repairs made.
pub open spec fn doctor_outcome(rep: DoctorReport) -> DoctorOutcome {
    if rep.fixed_missing_files == 0 && rep.recovered_files == 0 {
        DoctorOutcome::Clean { missing_files: 0, recovered_files: 0 }
    } else {
        DoctorOutcome::Repaired { missing_files: rep.fixed_missing_files, recovered_files: rep.recovered_files }
    }
}

/// Clean when no file was recovered, else the number recovered.
pub open spec fn recovered_outcome(n: nat) -> DoctorOutcome {
    if n == 0 {
        DoctorOutcome::Clean { missing_files: 0, recovered_files: 0 }
    } else {
        DoctorOutcome::Repaired { missing_files: 0, recovered_files: n as usize }
    }
}

/// Reconciles the index of `scope` with its content files (see
/// [`Store::doctor`]) and reports what was repaired (see
/// [`doctor_outcome`]).
pub fn run(store: &mut Store, scope: Scope) -> (r: Result<DoctorOutcome, PadzError>)
    ensures
        r matches Ok(o) && exists|now: i64|
            #[trigger] recovered(old(store)@, old(store).spec_loose(), scope, now).0 == final(store)@ && o
                == recovered_outcome(recovered(old(store)@, old(store).spec_loose(), scope, now).1),
        final(store).spec_loose() == old(store).spec_loose().filter(|o: LooseV| o.scope != scope),
{
    let ghost s0 = store@;
    let ghost l0 = store.spec_loose();
    let report = match store.doctor(scope) {
        Ok(rep) => rep,
        Err(e) => return Err(e),
    };
    let ghost now = choose|now: i64| #[trigger] recovered(s0, l0, scope, now) == (store@, report.recovered_files as nat);
    let outcome = if report.fixed_missing_files == 0 && report.recovered_files == 0 {
        DoctorOutcome::Clean { missing_files: 0, recovered_files: 0 }
    } else {
        DoctorOutcome::Repaired { missing_files: report.fixed_missing_files, recovered_files: report.recovered_files }
    };
    assert(outcome == doctor_outcome(report));
    assert(recovered(s0, l0, scope, now).0 == store@);
    assert(outcome == recovered_outcome(recovered(s0, l0, scope, now).1));
    Ok(outcome)
}

} // verus!
