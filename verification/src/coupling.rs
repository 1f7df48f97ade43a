//! Selection of the coupled process: among the PIDs bound to the guarded
//! port, the first one (in emission order) whose owner equals the
//! violator's user identity.

use vstd::prelude::*;

verus! {

/// The fixed port on which a coupled process is searched.
pub const COUPLED_PORT: u16 = 8000;

/// Whether a looked-up owner matches the queried user identity. A PID
/// whose owner lookup failed (`None`) never matches.
pub open spec fn owner_matches(owner: Option<String>, uid: Seq<char>) -> bool {
    owner is Some && (owner->0)@ == uid
}

/// First-match selection: the earliest PID whose owner equals `uid`, or
/// `None` where no owner matches.
pub open spec fn spec_coupled(pids: Seq<u32>, owners: Seq<Option<String>>, uid: Seq<char>) -> Option<
    u32,
>
    recommends
        pids.len() == owners.len(),
    decreases pids.len(),
{
    if pids.len() == 0 {
        None
    } else if owner_matches(owners[0], uid) {
        Some(pids[0])
    } else {
        spec_coupled(pids.drop_first(), owners.drop_first(), uid)
    }
}

/// The index of the first matching owner, or the length where none
/// matches.
pub open spec fn first_match_index(owners: Seq<Option<String>>, uid: Seq<char>) -> int
    decreases owners.len(),
{
    if owners.len() == 0 {
        0
    } else if owner_matches(owners[0], uid) {
        0
    } else {
        1 + first_match_index(owners.drop_first(), uid)
    }
}

/// Relies on str's `PartialEq`: equality of two string slices is equality
/// of their character sequences.
#[verifier::external_body]
fn str_eq(a: &str, b: &str) -> (r: bool)
    ensures
        r == (a@ == b@),
{
    a == b
}

/// Scans the PIDs bound to the guarded port, paired with each PID's
/// looked-up owner, and returns the first PID owned by `uid`.
pub fn find_port_8000_process(pids: &Vec<u32>, owners: &Vec<Option<String>>, uid: &str) -> (r:
    Option<u32>)
    requires
        pids@.len() == owners@.len(),
    ensures
        r == spec_coupled(pids@, owners@, uid@),
{
    let n = pids.len();
    let mut i: usize = 0;
    proof {
        assert(pids@.skip(0) =~= pids@);
        assert(owners@.skip(0) =~= owners@);
    }
    while i < n
        invariant
            n == pids@.len(),
            pids@.len() == owners@.len(),
            i <= n,
            spec_coupled(pids@.skip(i as int), owners@.skip(i as int), uid@) == spec_coupled(
                pids@,
                owners@,
                uid@,
            ),
        decreases n - i,
    {
        let matched = match &owners[i] {
            Some(o) => str_eq(o.as_str(), uid),
            None => false,
        };
        proof {
            assert(pids@.skip(i as int)[0] == pids@[i as int]);
            assert(owners@.skip(i as int)[0] == owners@[i as int]);
            assert(pids@.skip(i as int).drop_first() =~= pids@.skip(i + 1 as int));
            assert(owners@.skip(i as int).drop_first() =~= owners@.skip(i + 1 as int));
        }
        if matched {
            return Some(pids[i]);
        }
        i = i + 1;
    }
    None
}

/// First-match semantics, spelled out: the selection returns `None`
/// exactly when no owner matches; otherwise it returns the PID at the
/// first matching index, and no earlier owner matches.
pub proof fn lemma_coupled_first_match(pids: Seq<u32>, owners: Seq<Option<String>>, uid: Seq<char>)
    requires
        pids.len() == owners.len(),
    ensures
        0 <= first_match_index(owners, uid) <= owners.len(),
        forall|j: int|
            0 <= j < first_match_index(owners, uid) ==> !owner_matches(owners[j], uid),
        first_match_index(owners, uid) == owners.len() ==> spec_coupled(pids, owners, uid) is None,
        first_match_index(owners, uid) < owners.len() ==> owner_matches(
            owners[first_match_index(owners, uid)],
            uid,
        ) && spec_coupled(pids, owners, uid) == Some(pids[first_match_index(owners, uid)]),
        (spec_coupled(pids, owners, uid) is None) <==> (forall|j: int|
            0 <= j < owners.len() ==> !owner_matches(owners[j], uid)),
    decreases pids.len(),
{
    if pids.len() > 0 && !owner_matches(owners[0], uid) {
        lemma_coupled_first_match(pids.drop_first(), owners.drop_first(), uid);
        let k = first_match_index(owners, uid);
        assert forall|j: int| 0 <= j < k implies !owner_matches(owners[j], uid) by {
            if j > 0 {
                assert(owners.drop_first()[j - 1] == owners[j]);
            }
        }
        if k < owners.len() {
            assert(owners.drop_first()[k - 1] == owners[k]);
            assert(pids.drop_first()[k - 1] == pids[k]);
        }
    }
}

/// The caller-side guard of the enforcement step: a coupling result equal
/// to the violator's own PID is discarded, so the violator is never
/// reported as its own coupled process.
pub fn coupled_target(found: Option<u32>, violator_pid: u32) -> (r: Option<u32>)
    ensures
        match r {
            Some(c) => found == Some(c) && c != violator_pid,
            None => found is None || found == Some(violator_pid),
        },
{
    match found {
        Some(c) => if c != violator_pid {
            Some(c)
        } else {
            None
        },
        None => None,
    }
}

} // verus!
