use vstd::prelude::*;
use vstd::string::{StringExecFns, StringSliceAdditionalSpecFns};
use vstd::utf8::{
    encode_utf8, encode_utf8_valid_utf8, is_char_boundary, length_of_first_scalar, pop_first_scalar,
    valid_first_scalar, valid_utf8,
};
use crate::catalog::MergeError;
use crate::registry::{added, InstalledPackage, PackageRecord, PackageRegistry};

verus! {

/// The phases of one acquisition run.
#[derive(Debug, Clone, Copy, PartialEq, Eq, Structural)]
pub enum RunPhase {
    Resolving,
    Confirmed,
    Downloading,
    Extracting,
    Registering,
    Done,
    Aborted,
}

/// What the outside world reports back to a run.
#[derive(Debug, Clone, Copy, PartialEq, Eq, Structural)]
pub enum RunEvent {
    /// The target was found in the catalog.
    Resolved,
    /// The target is absent from the catalog.
    TargetMissing,
    /// The user's answer to the confirmation prompt.
    Answered(bool),
    /// Every transfer has finished; whether all of them succeeded.
    TransfersJoined(bool),
    /// Every extraction has finished; whether all of them succeeded.
    ExtractionsFinished(bool),
    /// The registry was written back.
    RegistrySaved,
}

pub open spec fn next_phase_spec(phase: RunPhase, ev: RunEvent) -> RunPhase {
    match (phase, ev) {
        (RunPhase::Resolving, RunEvent::Resolved) => RunPhase::Confirmed,
        (RunPhase::Resolving, RunEvent::TargetMissing) => RunPhase::Aborted,
        (RunPhase::Confirmed, RunEvent::Answered(yes)) => if yes {
            RunPhase::Downloading
        } else {
            RunPhase::Aborted
        },
        (RunPhase::Downloading, RunEvent::TransfersJoined(ok)) => if ok {
            RunPhase::Extracting
        } else {
            RunPhase::Aborted
        },
        (RunPhase::Extracting, RunEvent::ExtractionsFinished(ok)) => if ok {
            RunPhase::Registering
        } else {
            RunPhase::Aborted
        },
        (RunPhase::Registering, RunEvent::RegistrySaved) => RunPhase::Done,
        (p, _) => p,
    }
}

/// The phase a run moves to when `ev` arrives in `phase`. An event that does
/// not belong to the phase leaves it as it is; `Done` and `Aborted` are final.
pub fn next_phase(phase: RunPhase, ev: RunEvent) -> (r: RunPhase)
    ensures
        r == next_phase_spec(phase, ev),
{
    match (phase, ev) {
        (RunPhase::Resolving, RunEvent::Resolved) => RunPhase::Confirmed,
        (RunPhase::Resolving, RunEvent::TargetMissing) => RunPhase::Aborted,
        (RunPhase::Confirmed, RunEvent::Answered(yes)) => if yes {
            RunPhase::Downloading
        } else {
            RunPhase::Aborted
        },
        (RunPhase::Downloading, RunEvent::TransfersJoined(ok)) => if ok {
            RunPhase::Extracting
        } else {
            RunPhase::Aborted
        },
        (RunPhase::Extracting, RunEvent::ExtractionsFinished(ok)) => if ok {
            RunPhase::Registering
        } else {
            RunPhase::Aborted
        },
        (RunPhase::Registering, RunEvent::RegistrySaved) => RunPhase::Done,
        (p, _) => p,
    }
}

/// The final phases admit no further step.
pub proof fn lemma_terminal_phases(ev: RunEvent)
    ensures
        next_phase_spec(RunPhase::Done, ev) == RunPhase::Done,
        next_phase_spec(RunPhase::Aborted, ev) == RunPhase::Aborted,
{
}

/// `a/b`.
pub open spec fn join_path(a: Seq<char>, b: Seq<char>) -> Seq<char> {
    a + seq!['/'] + b
}

/// The directory an artifact is extracted into: `<base>/<name>/<version>`.
pub fn install_dir(base: &str, name: &str, version: &str) -> (r: String)
    ensures
        r@ == join_path(join_path(base@, name@), version@),
{
    proof {
        reveal_strlit("/");
    }
    let mut r = String::from_str(base);
    r.append("/");
    r.append(name);
    r.append("/");
    r.append(version);
    r
}

/// In valid UTF-8 the position right after an ASCII byte starts a character
/// (or ends the text), so a string can be split there.
pub proof fn lemma_boundary_after_ascii(bytes: Seq<u8>, k: int)
    requires
        valid_utf8(bytes),
        0 < k <= bytes.len(),
        bytes[k - 1] <= 0x7f,
    ensures
        is_char_boundary(bytes, k),
    decreases bytes.len(),
{
    let l = length_of_first_scalar(bytes);
    let rest = pop_first_scalar(bytes);
    assert(valid_first_scalar(bytes) && valid_utf8(rest));
    assert(1 <= l <= bytes.len());
    if k < l {
        assert(bytes[k - 1] >= 0x80);
    }
    assert(rest.len() == bytes.len() - l);
    if k > l {
        assert(rest[k - l - 1] == bytes[k - 1]);
        lemma_boundary_after_ascii(rest, k - l);
    } else {
        assert(is_char_boundary(rest, 0));
    }
    assert(is_char_boundary(bytes, k) == is_char_boundary(rest, k - l));
}

/// Index of the last `/` in `b`.
pub open spec fn last_slash(b: Seq<u8>) -> Option<int> {
    if exists|i: int| 0 <= i < b.len() && b[i] == 47u8 {
        Some(choose|i: int| 0 <= i < b.len() && b[i] == 47u8 && forall|k: int| i < k < b.len() ==> b[k] != 47u8)
    } else {
        None
    }
}

proof fn lemma_last_slash(b: Seq<u8>, i: int)
    requires
        0 <= i < b.len(),
        b[i] == 47u8,
        forall|k: int| i < k < b.len() ==> b[k] != 47u8,
    ensures
        last_slash(b) == Some(i),
{
    let c = last_slash(b).unwrap();
    if c < i {
        assert(b[i] != 47u8);
    } else if c > i {
        assert(b[c] != 47u8);
    }
}

/// The file name a download is saved under: what follows the last `/` of the
/// URL, or `<name>-<version>.archive` when the URL has no `/`.
pub fn download_file_name(url: &str, name: &str, version: &str) -> (r: String)
    ensures
        last_slash(url.spec_bytes()) is None ==> r@ == name@ + "-"@ + version@ + ".archive"@,
        last_slash(url.spec_bytes()) matches Some(k) ==> encode_utf8(r@) == url.spec_bytes().subrange(
            k + 1,
            url.spec_bytes().len() as int,
        ),
{
    let b = url.as_bytes();
    let mut i: usize = b.len();
    while i > 0
        invariant
            0 <= i <= b@.len(),
            b@ == url.spec_bytes(),
            forall|k: int| i <= k < b@.len() ==> b@[k] != 47u8,
        decreases i,
    {
        if b[i - 1] == 47u8 {
            proof {
                lemma_last_slash(b@, i - 1);
            }
            proof {
                encode_utf8_valid_utf8(url@);
                lemma_boundary_after_ascii(b@, i as int);
            }
            let (_, tail) = url.split_at(i);
            return tail.to_owned();
        }
        i = i - 1;
    }
    let mut r = String::from_str(name);
    r.append("-");
    r.append(version);
    r.append(".archive");
    r
}

/// `s` after adding each of `recs` in turn.
pub open spec fn added_all(s: Seq<PackageRecord>, recs: Seq<PackageRecord>) -> Seq<PackageRecord>
    decreases recs.len(),
{
    if recs.len() == 0 {
        s
    } else {
        added(added_all(s, recs.drop_last()), recs.last())
    }
}

/// Whether some outcome of a run is a failure.
pub open spec fn any_failed<T>(outcomes: Seq<Result<T, MergeError>>) -> bool {
    exists|i: int| 0 <= i < outcomes.len() && outcomes[i] is Err
}

/// Index of the first failure among `outcomes`.
pub open spec fn first_failure<T>(outcomes: Seq<Result<T, MergeError>>) -> int {
    choose|i: int| 0 <= i < outcomes.len() && outcomes[i] is Err && forall|k: int| 0 <= k < i ==> outcomes[k] is Ok
}

proof fn lemma_first_failure<T>(outcomes: Seq<Result<T, MergeError>>, i: int)
    requires
        0 <= i < outcomes.len(),
        outcomes[i] is Err,
        forall|k: int| 0 <= k < i ==> outcomes[k] is Ok,
    ensures
        first_failure(outcomes) == i,
{
    let c = first_failure(outcomes);
    if c < i {
        assert(outcomes[c] is Ok);
    } else if c > i {
        assert(outcomes[i] is Ok);
    }
}

/// The records of a run whose every step succeeded.
pub open spec fn records_of(outcomes: Seq<Result<InstalledPackage, MergeError>>) -> Seq<PackageRecord> {
    outcomes.map_values(|o: Result<InstalledPackage, MergeError>| o->Ok_0@)
}

/// The barrier after the concurrent downloads: given the outcome of every
/// transfer of a run, in queue order, yields all downloaded paths when every
/// transfer succeeded and otherwise the first failure.
pub fn join_transfers(results: Vec<Result<String, MergeError>>) -> (r: Result<Vec<String>, MergeError>)
    ensures
        !any_failed(results@) ==> (r matches Ok(paths) && paths@.len() == results@.len() && forall|i: int|
            0 <= i < results@.len() ==> paths@[i]@ == results@[i]->Ok_0@),
        any_failed(results@) ==> r == Err::<Vec<String>, MergeError>(results@[first_failure(results@)]->Err_0),
{
    let mut paths: Vec<String> = Vec::new();
    let mut i: usize = 0;
    while i < results.len()
        invariant
            0 <= i <= results@.len(),
            paths@.len() == i,
            forall|k: int| 0 <= k < i ==> results@[k] is Ok,
            forall|k: int| 0 <= k < i ==> paths@[k]@ == results@[k]->Ok_0@,
        decreases results@.len() - i,
    {
        match &results[i] {
            Ok(p) => {
                paths.push(p.clone());
            },
            Err(e) => {
                proof {
                    lemma_first_failure(results@, i as int);
                }
                return Err(e.clone());
            },
        }
        i = i + 1;
    }
    assert(!any_failed(results@));
    Ok(paths)
}

/// Records a run in the registry, all or nothing: when every artifact was
/// fetched and extracted, each record is added in order; when any step
/// failed, the registry is left exactly as it was and the first failure is
/// returned.
pub fn record_run(registry: &mut PackageRegistry, outcomes: Vec<Result<InstalledPackage, MergeError>>) -> (r: Result<(), MergeError>)
    requires
        old(registry).wf(),
    ensures
        final(registry).wf(),
        any_failed(outcomes@) ==> final(registry)@ == old(registry)@ && r == Err::<(), MergeError>(outcomes@[first_failure(outcomes@)]->Err_0),
        !any_failed(outcomes@) ==> r is Ok && final(registry)@ == added_all(old(registry)@, records_of(outcomes@)),
{
    let mut i: usize = 0;
    while i < outcomes.len()
        invariant
            0 <= i <= outcomes@.len(),
            forall|k: int| 0 <= k < i ==> outcomes@[k] is Ok,
            registry.wf(),
            registry@ == old(registry)@,
        decreases outcomes@.len() - i,
    {
        match &outcomes[i] {
            Ok(_) => {},
            Err(e) => {
                proof {
                    lemma_first_failure(outcomes@, i as int);
                }
                return Err(e.clone());
            },
        }
        i = i + 1;
    }
    let ghost s0 = registry@;
    let ghost recs = records_of(outcomes@);
    let mut rest = outcomes;
    let ghost all = rest@;
    let n = rest.len();
    assert(!any_failed(all));
    let mut added_so_far: usize = 0;
    let mut pending: Vec<InstalledPackage> = Vec::new();
    while rest.len() > 0
        invariant
            added_so_far + rest@.len() == all.len(),
            all.len() == n,
            pending@.len() == 0,
            rest@ == all.subrange(added_so_far as int, all.len() as int),
            forall|k: int| 0 <= k < all.len() ==> all[k] is Ok,
            recs == records_of(all),
            registry.wf(),
            registry@ == added_all(s0, recs.subrange(0, added_so_far as int)),
        decreases rest@.len(),
    {
        let o = rest.remove(0);
        match o {
            Ok(p) => {
                proof {
                    assert(p@ == recs[added_so_far as int]);
                    let pre = recs.subrange(0, added_so_far as int + 1);
                    assert(pre.drop_last() =~= recs.subrange(0, added_so_far as int));
                    assert(pre.last() == p@);
                }
                registry.add(p);
                added_so_far = added_so_far + 1;
                assert(rest@ =~= all.subrange(added_so_far as int, all.len() as int));
            },
            Err(_) => {
                assert(all[added_so_far as int] is Err);
            },
        }
    }
    assert(recs.subrange(0, added_so_far as int) =~= recs);
    Ok(())
}

} // verus!
