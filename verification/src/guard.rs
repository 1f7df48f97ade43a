//! One cycle of the guard loop: the snapshot records, the scan that picks
//! every violator with a resolvable owner, and what that scan guarantees.

use vstd::prelude::*;
use vstd::string::StringExecFns;
use crate::digits::{dec_digits, u64_to_string};
use crate::units::{format_bytes, spec_format_bytes};

verus! {

/// One process as the snapshot provider reports it: plain values only.
/// `uid` is `None` where the owning user could not be resolved.
pub struct ProcessRecord {
    pub pid: u32,
    pub uid: Option<String>,
    pub name: String,
    pub memory: u64,
}

/// A process with its owner resolved.
pub struct ProcessInfo {
    pub pid: u32,
    pub uid: String,
    pub name: String,
}

/// A record the guard enforces this cycle: the resolved process and the
/// resident memory it was seen with.
pub struct Violation {
    pub info: ProcessInfo,
    pub memory: u64,
}

/// The record's owning user is known.
pub open spec fn resolvable(r: ProcessRecord) -> bool {
    r.uid is Some
}

/// The record's resident memory exceeds the ceiling.
pub open spec fn violates(r: ProcessRecord, ceiling: u64) -> bool {
    r.memory > ceiling
}

/// The guard acts on a record exactly when it violates the ceiling and its
/// owner is resolvable.
pub open spec fn enforced(r: ProcessRecord, ceiling: u64) -> bool {
    violates(r, ceiling) && resolvable(r)
}

/// The violation entry built from an enforced record.
pub open spec fn violation_of(r: ProcessRecord) -> Violation
    recommends
        resolvable(r),
{
    Violation { info: ProcessInfo { pid: r.pid, uid: r.uid->0, name: r.name }, memory: r.memory }
}

/// The violations of one snapshot, in snapshot order: one entry per
/// enforced record.
pub open spec fn spec_violators(s: Seq<ProcessRecord>, ceiling: u64) -> Seq<Violation>
    decreases s.len(),
{
    if s.len() == 0 {
        Seq::empty()
    } else {
        let rest = spec_violators(s.drop_last(), ceiling);
        if enforced(s.last(), ceiling) {
            rest.push(violation_of(s.last()))
        } else {
            rest
        }
    }
}

/// Resolves a snapshot record: `Some` exactly when the owning user is
/// known, carrying the record's pid, uid and name.
pub fn get_process_info(p: &ProcessRecord) -> (r: Option<ProcessInfo>)
    ensures
        (r is Some) <==> resolvable(*p),
        r is Some ==> r->0 == (violation_of(*p).info),
{
    match &p.uid {
        Some(u) => Some(ProcessInfo { pid: p.pid, uid: u.clone(), name: p.name.clone() }),
        None => None,
    }
}

/// Scans one snapshot against the ceiling and returns every violation,
/// in snapshot order.
pub fn scan_violators(snapshot: &Vec<ProcessRecord>, ceiling: u64) -> (v: Vec<Violation>)
    ensures
        v@ == spec_violators(snapshot@, ceiling),
{
    let mut v: Vec<Violation> = Vec::new();
    let n = snapshot.len();
    let mut i: usize = 0;
    while i < n
        invariant
            n == snapshot@.len(),
            i <= n,
            v@ == spec_violators(snapshot@.take(i as int), ceiling),
        decreases n - i,
    {
        let p = &snapshot[i];
        if p.memory > ceiling {
            if let Some(info) = get_process_info(p) {
                v.push(Violation { info, memory: p.memory });
            }
        }
        proof {
            let pre = snapshot@.take(i as int);
            let post = snapshot@.take(i + 1 as int);
            assert(post.drop_last() =~= pre);
            assert(post.last() == snapshot@[i as int]);
        }
        i = i + 1;
    }
    proof {
        assert(snapshot@.take(n as int) =~= snapshot@);
    }
    v
}

/// The warning logged for one violation: the process, its pid and owner,
/// the memory it was seen with and the configured ceiling.
pub open spec fn spec_violation_message(
    name: Seq<char>,
    pid: u32,
    uid: Seq<char>,
    memory: u64,
    ceiling: u64,
) -> Seq<char> {
    "Process '"@ + name + "' (PID: "@ + dec_digits(pid as nat) + ", UID: "@ + uid
        + ") killed by memguard: Memory usage "@ + spec_format_bytes(memory) + " exceeds limit "@
        + spec_format_bytes(ceiling)
}

/// Builds the warning line for one violation.
pub fn violation_message(v: &Violation, ceiling: u64) -> (r: String)
    ensures
        r@ == spec_violation_message(v.info.name@, v.info.pid, v.info.uid@, v.memory, ceiling),
{
    let mut s = String::from_str("Process '");
    s.append(v.info.name.as_str());
    s.append("' (PID: ");
    s.append(u64_to_string(v.info.pid as u64).as_str());
    s.append(", UID: ");
    s.append(v.info.uid.as_str());
    s.append(") killed by memguard: Memory usage ");
    s.append(format_bytes(v.memory).as_str());
    s.append(" exceeds limit ");
    s.append(format_bytes(ceiling).as_str());
    s
}

/// The violation stems from an enforced record of the snapshot.
pub open spec fn stems_from(s: Seq<ProcessRecord>, ceiling: u64, v: Violation) -> bool {
    exists|i: int| 0 <= i < s.len() && enforced(s[i], ceiling) && v == #[trigger] violation_of(s[i])
}

/// Every violation the scan reports exceeds the ceiling and stems from an
/// enforced record of the snapshot.
pub proof fn lemma_violators_exceed(s: Seq<ProcessRecord>, ceiling: u64)
    ensures
        forall|k: int|
            0 <= k < spec_violators(s, ceiling).len() ==> spec_violators(s, ceiling)[k].memory
                > ceiling,
        forall|k: int|
            0 <= k < spec_violators(s, ceiling).len() ==> stems_from(
                s,
                ceiling,
                #[trigger] spec_violators(s, ceiling)[k],
            ),
    decreases s.len(),
{
    if s.len() > 0 {
        lemma_violators_exceed(s.drop_last(), ceiling);
        let rest = spec_violators(s.drop_last(), ceiling);
        let vs = spec_violators(s, ceiling);
        assert forall|k: int| 0 <= k < vs.len() implies vs[k].memory > ceiling && stems_from(
            s,
            ceiling,
            vs[k],
        ) by {
            if k < rest.len() {
                assert(vs[k] == rest[k]);
                assert(stems_from(s.drop_last(), ceiling, rest[k]));
                let i = choose|i: int|
                    0 <= i < s.drop_last().len() && enforced(s.drop_last()[i], ceiling)
                        && rest[k] == #[trigger] violation_of(s.drop_last()[i]);
                assert(s.drop_last()[i] == s[i]);
                assert(vs[k] == violation_of(s[i]));
            } else {
                assert(vs[k] == violation_of(s.last()));
                assert(s.last() == s[s.len() - 1]);
            }
        }
    }
}

/// A record within the ceiling is never acted on: no termination entry of
/// the cycle stems from it.
pub proof fn lemma_compliant_not_enforced(s: Seq<ProcessRecord>, ceiling: u64, r: ProcessRecord)
    requires
        r.memory <= ceiling,
    ensures
        !spec_violators(s, ceiling).contains(violation_of(r)),
{
    lemma_violators_exceed(s, ceiling);
    assert forall|k: int| 0 <= k < spec_violators(s, ceiling).len() implies spec_violators(
        s,
        ceiling,
    )[k] != violation_of(r) by {
        assert(spec_violators(s, ceiling)[k].memory > ceiling);
    }
}

/// How many records with this pid the guard enforces in one snapshot.
pub open spec fn count_enforced(s: Seq<ProcessRecord>, ceiling: u64, pid: u32) -> nat
    decreases s.len(),
{
    if s.len() == 0 {
        0
    } else {
        count_enforced(s.drop_last(), ceiling, pid) + if s.last().pid == pid && enforced(
            s.last(),
            ceiling,
        ) {
            1nat
        } else {
            0nat
        }
    }
}

/// How many violation entries of one cycle name this pid.
pub open spec fn count_pid(vs: Seq<Violation>, pid: u32) -> nat
    decreases vs.len(),
{
    if vs.len() == 0 {
        0
    } else {
        count_pid(vs.drop_last(), pid) + if vs.last().info.pid == pid {
            1nat
        } else {
            0nat
        }
    }
}

/// The scan acts on a pid exactly as often as the snapshot holds an
/// enforced record with that pid.
pub proof fn lemma_count_violations(s: Seq<ProcessRecord>, ceiling: u64, pid: u32)
    ensures
        count_pid(spec_violators(s, ceiling), pid) == count_enforced(s, ceiling, pid),
    decreases s.len(),
{
    if s.len() > 0 {
        lemma_count_violations(s.drop_last(), ceiling, pid);
        let rest = spec_violators(s.drop_last(), ceiling);
        if enforced(s.last(), ceiling) {
            let pushed = rest.push(violation_of(s.last()));
            assert(pushed.drop_last() =~= rest);
        }
    }
}

/// A well-formed snapshot holds at most one record per pid, as an
/// enumeration keyed by pid yields it.
pub open spec fn wf_snapshot(s: Seq<ProcessRecord>) -> bool {
    forall|i: int, j: int|
        #![trigger s[i].pid, s[j].pid]
        0 <= i < s.len() && 0 <= j < s.len() && i != j ==> s[i].pid != s[j].pid
}

/// In a well-formed snapshot, a violator with a resolvable owner is acted
/// on exactly once in the cycle, however many other violators there are.
pub proof fn lemma_violator_enforced_once(s: Seq<ProcessRecord>, ceiling: u64, i: int)
    requires
        wf_snapshot(s),
        0 <= i < s.len(),
        enforced(s[i], ceiling),
    ensures
        count_pid(spec_violators(s, ceiling), s[i].pid) == 1,
{
    lemma_count_violations(s, ceiling, s[i].pid);
    lemma_count_enforced_unique(s, ceiling, i);
}

proof fn lemma_count_enforced_unique(s: Seq<ProcessRecord>, ceiling: u64, i: int)
    requires
        wf_snapshot(s),
        0 <= i < s.len(),
        enforced(s[i], ceiling),
    ensures
        count_enforced(s, ceiling, s[i].pid) == 1,
    decreases s.len(),
{
    if i == s.len() - 1 {
        assert forall|j: int| 0 <= j < s.drop_last().len() implies s.drop_last()[j].pid
            != s[i].pid by {
            assert(s.drop_last()[j] == s[j]);
        }
        lemma_count_enforced_none(s.drop_last(), ceiling, s[i].pid);
    } else {
        assert forall|j: int, k: int|
            #![trigger s.drop_last()[j].pid, s.drop_last()[k].pid]
            0 <= j < s.drop_last().len() && 0 <= k < s.drop_last().len() && j
                != k implies s.drop_last()[j].pid != s.drop_last()[k].pid by {
            assert(s.drop_last()[j] == s[j]);
            assert(s.drop_last()[k] == s[k]);
        }
        assert(s.drop_last()[i] == s[i]);
        lemma_count_enforced_unique(s.drop_last(), ceiling, i);
        assert(s.last().pid != s[i].pid);
    }
}

proof fn lemma_count_enforced_none(s: Seq<ProcessRecord>, ceiling: u64, pid: u32)
    requires
        forall|j: int| 0 <= j < s.len() ==> s[j].pid != pid,
    ensures
        count_enforced(s, ceiling, pid) == 0,
    decreases s.len(),
{
    if s.len() > 0 {
        lemma_count_enforced_none(s.drop_last(), ceiling, pid);
    }
}

} // verus!
