//! The canisters whose code is to be replaced: those that wait, those under way and those
//! that failed.

use crate::collections::vec_set::VecSet;
use crate::types::{CanisterId, Key, Version};
use itertools::Itertools;
use vstd::prelude::*;
use vstd::seq_lib::{to_multiset_build, to_multiset_insert};

verus! {

/// An upgrade that did not go through.
#[derive(Clone, Copy, Debug, PartialEq, Eq)]
pub struct FailedUpgrade {
    pub canister_id: CanisterId,
    pub from_version: Version,
    pub to_version: Version,
}

/// The three numbers of a version.
pub type VersionNumbers = (u32, u32, u32);

/// The version that an upgrade started from and the one it aimed at.
pub type UpgradePath = (VersionNumbers, VersionNumbers);

/// The number of failed upgrades along one path.
#[derive(Clone, Copy, Debug, PartialEq, Eq)]
pub struct FailedUpgradeCount {
    pub from_version: Version,
    pub to_version: Version,
    pub count: usize,
}

/// Counts for the operator.
pub struct Metrics {
    pub pending: usize,
    pub in_progress: usize,
    pub failed: Vec<FailedUpgradeCount>,
}

/// The numbers of the version `version`.
pub open spec fn numbers_of(version: Version) -> VersionNumbers {
    (version.major, version.minor, version.patch)
}

/// The version with the numbers `numbers`.
pub open spec fn version_of(numbers: VersionNumbers) -> Version {
    Version { major: numbers.0, minor: numbers.1, patch: numbers.2 }
}

/// The path of the failed upgrade `failed`.
pub open spec fn path_of(failed: FailedUpgrade) -> UpgradePath {
    (numbers_of(failed.from_version), numbers_of(failed.to_version))
}

/// The path that a count is about.
pub open spec fn path_of_count(count: FailedUpgradeCount) -> UpgradePath {
    (numbers_of(count.from_version), numbers_of(count.to_version))
}

/// Whether the version with the numbers `a` comes before the one with the numbers `b`.
pub open spec fn numbers_lt(a: VersionNumbers, b: VersionNumbers) -> bool {
    a.0 < b.0 || (a.0 == b.0 && (a.1 < b.1 || (a.1 == b.1 && a.2 < b.2)))
}

/// Whether the path `a` comes before the path `b`: by the version started from, then by the
/// version aimed at.
pub open spec fn path_lt(a: UpgradePath, b: UpgradePath) -> bool {
    numbers_lt(a.0, b.0) || (a.0 == b.0 && numbers_lt(a.1, b.1))
}

/// Whether the counts are in the order of their paths.
pub open spec fn sorted_by_path(counts: Seq<FailedUpgradeCount>) -> bool {
    forall|i: int, j: int|
        0 <= i < j < counts.len() ==> !path_lt(
            path_of_count(#[trigger] counts[j]),
            path_of_count(#[trigger] counts[i]),
        )
}

/// The runs of `paths`: each maximal stretch of neighbours that are the same path, with the
/// number of its items, in the order of the stretches.
pub open spec fn run_lengths(paths: Seq<UpgradePath>) -> Seq<(UpgradePath, nat)>
    decreases paths.len(),
{
    if paths.len() == 0 {
        Seq::empty()
    } else {
        let runs = run_lengths(paths.drop_last());
        if runs.len() > 0 && runs.last().0 == paths.last() {
            runs.drop_last().push((paths.last(), runs.last().1 + 1))
        } else {
            runs.push((paths.last(), 1))
        }
    }
}

/// The counts of the runs of the paths of `failed`, in the order of the runs.
pub open spec fn counts_of_runs(failed: Seq<FailedUpgrade>) -> Seq<FailedUpgradeCount> {
    run_lengths(failed.map_values(|f: FailedUpgrade| path_of(f))).map_values(
        |run: (UpgradePath, nat)|
            FailedUpgradeCount {
                from_version: version_of(run.0.0),
                to_version: version_of(run.0.1),
                count: run.1 as usize,
            },
    )
}

impl FailedUpgrade {
    /// The path of the failed upgrade.
    pub fn path(&self) -> (r: UpgradePath)
        ensures
            r == path_of(*self),
    {
        (
            (self.from_version.major, self.from_version.minor, self.from_version.patch),
            (self.to_version.major, self.to_version.minor, self.to_version.patch),
        )
    }
}

impl FailedUpgradeCount {
    /// Whether the path of this count comes before the path of `other`.
    pub fn comes_before(&self, other: &FailedUpgradeCount) -> (r: bool)
        ensures
            r == path_lt(path_of_count(*self), path_of_count(*other)),
    {
        let a = &self.from_version;
        let b = &other.from_version;
        let c = &self.to_version;
        let d = &other.to_version;
        let from_lt = a.major < b.major || (a.major == b.major && (a.minor < b.minor || (a.minor
            == b.minor && a.patch < b.patch)));
        let from_eq = a.major == b.major && a.minor == b.minor && a.patch == b.patch;
        let to_lt = c.major < d.major || (c.major == d.major && (c.minor < d.minor || (c.minor
            == d.minor && c.patch < d.patch)));
        from_lt || (from_eq && to_lt)
    }
}

/// Calls `group_by` of `itertools` on the failed upgrades, keyed by their paths, and counts
/// each group.
///
/// The contract states what the documentation of `group_by` says: neighbours with the same
/// key form one group, so that the result is the runs of the paths with their lengths.
#[verifier::external_body]
fn group_consecutive(failed: &Vec<FailedUpgrade>) -> (counts: Vec<FailedUpgradeCount>)
    ensures
        counts@ == counts_of_runs(failed@),
{
    let mut counts = Vec::new();
    for (path, group) in &failed.iter().group_by(|f| f.path()) {
        counts.push(
            FailedUpgradeCount {
                from_version: Version { major: path.0.0, minor: path.0.1, patch: path.0.2 },
                to_version: Version { major: path.1.0, minor: path.1.1, patch: path.1.2 },
                count: group.count(),
            },
        );
    }
    counts
}

/// The counts `counts` in the order of their paths; counts of the same path keep their
/// order.
pub fn sort_by_path(counts: Vec<FailedUpgradeCount>) -> (sorted: Vec<FailedUpgradeCount>)
    ensures
        sorted_by_path(sorted@),
        sorted@.to_multiset() == counts@.to_multiset(),
{
    let mut sorted: Vec<FailedUpgradeCount> = Vec::new();
    let mut i: usize = 0;
    proof {
        assert(counts@.subrange(0, 0) =~= Seq::<FailedUpgradeCount>::empty());
    }
    while i < counts.len()
        invariant
            i <= counts@.len(),
            sorted@.len() == i,
            sorted_by_path(sorted@),
            sorted@.to_multiset() == counts@.subrange(0, i as int).to_multiset(),
        decreases counts@.len() - i,
    {
        let item = counts[i];
        let mut p: usize = 0;
        while p < sorted.len() && !item.comes_before(&sorted[p])
            invariant
                p <= sorted@.len(),
                forall|k: int|
                    0 <= k < p ==> !path_lt(path_of_count(item), path_of_count(#[trigger] sorted@[k])),
            decreases sorted@.len() - p,
        {
            p += 1;
        }
        let ghost before = sorted@;
        sorted.insert(p, item);
        proof {
            to_multiset_insert(before, p as int, item);
            to_multiset_build(counts@.subrange(0, i as int), item);
            assert(counts@.subrange(0, i + 1) =~= counts@.subrange(0, i as int).push(item));
            assert forall|a: int, b: int| 0 <= a < b < sorted@.len() implies !path_lt(
                path_of_count(#[trigger] sorted@[b]),
                path_of_count(#[trigger] sorted@[a]),
            ) by {
                if b < p {
                    assert(sorted@[a] == before[a] && sorted@[b] == before[b]);
                } else if b == p {
                    assert(sorted@[a] == before[a]);
                } else if a < p {
                    assert(sorted@[a] == before[a] && sorted@[b] == before[b - 1]);
                } else if a == p {
                    assert(sorted@[b] == before[b - 1]);
                    assert(path_lt(path_of_count(item), path_of_count(before[p as int])));
                    if p < b - 1 {
                        assert(!path_lt(
                            path_of_count(before[b - 1]),
                            path_of_count(before[p as int]),
                        ));
                    }
                } else {
                    assert(sorted@[a] == before[a - 1] && sorted@[b] == before[b - 1]);
                }
            }
        }
        i += 1;
    }
    proof {
        assert(counts@.subrange(0, counts@.len() as int) =~= counts@);
    }
    sorted
}

/// The model of the upgrade bookkeeping.
pub struct CanistersRequiringUpgradeView {
    /// The canisters that wait, the next one first.
    pub pending: Seq<CanisterId>,
    /// The canisters whose upgrade is under way.
    pub in_progress: Set<CanisterId>,
    /// The upgrades that failed, oldest first.
    pub failed: Seq<FailedUpgrade>,
}

/// The bookkeeping of upgrades.
pub struct CanistersRequiringUpgrade {
    pending: Vec<CanisterId>,
    in_progress: VecSet<CanisterId>,
    failed: Vec<FailedUpgrade>,
}

impl View for CanistersRequiringUpgrade {
    type V = CanistersRequiringUpgradeView;

    closed spec fn view(&self) -> CanistersRequiringUpgradeView {
        CanistersRequiringUpgradeView {
            pending: self.pending@,
            in_progress: self.in_progress@,
            failed: self.failed@,
        }
    }
}

impl CanistersRequiringUpgrade {
    /// The set of canisters under way is sound.
    pub closed spec fn wf(&self) -> bool {
        self.in_progress.wf()
    }

    /// Finitely many canisters are under way.
    pub proof fn lemma_view(&self)
        requires
            self.wf(),
        ensures
            self@.in_progress.finite(),
    {
        self.in_progress.lemma_order();
    }

    /// No canister waits, is under way or has failed.
    pub fn new() -> (r: Self)
        ensures
            r.wf(),
            r@ == (CanistersRequiringUpgradeView {
                pending: Seq::empty(),
                in_progress: Set::empty(),
                failed: Seq::empty(),
            }),
    {
        CanistersRequiringUpgrade {
            pending: Vec::new(),
            in_progress: VecSet::new(),
            failed: Vec::new(),
        }
    }

    /// The bookkeeping with the canisters `pending` waiting, the next one first, those of
    /// `in_progress` under way and the failures `failed`, oldest first.
    pub fn from_parts(
        pending: Vec<CanisterId>,
        in_progress: Vec<CanisterId>,
        failed: Vec<FailedUpgrade>,
    ) -> (r: Self)
        ensures
            r.wf(),
            r@ == (CanistersRequiringUpgradeView {
                pending: pending@,
                in_progress: in_progress@.to_set(),
                failed: failed@,
            }),
    {
        CanistersRequiringUpgrade { pending, in_progress: VecSet::from_vec(&in_progress), failed }
    }

    /// The canisters that wait, those under way, each once, and the failures.
    pub fn into_parts(self) -> (parts: (Vec<CanisterId>, Vec<CanisterId>, Vec<FailedUpgrade>))
        requires
            self.wf(),
        ensures
            self@ == (CanistersRequiringUpgradeView {
                pending: parts.0@,
                in_progress: parts.1@.to_set(),
                failed: parts.2@,
            }),
            parts.1@.no_duplicates(),
    {
        (self.pending, self.in_progress.into_vec(), self.failed)
    }

    /// Puts `canister_id` at the end of those that wait.
    pub fn enqueue(&mut self, canister_id: CanisterId)
        requires
            old(self).wf(),
        ensures
            final(self).wf(),
            final(self)@ == (CanistersRequiringUpgradeView {
                pending: old(self)@.pending.push(canister_id),
                ..old(self)@
            }),
    {
        self.pending.push(canister_id);
    }

    /// Takes the canister that has waited longest and notes that its upgrade is under way.
    /// `None`, and no change, when none waits.
    pub fn try_take_next(&mut self) -> (r: Option<CanisterId>)
        requires
            old(self).wf(),
        ensures
            final(self).wf(),
            match r {
                Some(canister_id) => old(self)@.pending.len() > 0 && canister_id == old(
                    self,
                )@.pending[0] && final(self)@ == (CanistersRequiringUpgradeView {
                    pending: old(self)@.pending.drop_first(),
                    in_progress: old(self)@.in_progress.insert(canister_id),
                    failed: old(self)@.failed,
                }),
                None => old(self)@.pending.len() == 0 && final(self)@ == old(self)@,
            },
    {
        if self.pending.len() == 0 {
            return None;
        }
        let canister_id = self.pending.remove(0);
        self.in_progress.insert(canister_id);
        proof {
            assert(self.pending@ =~= old(self).pending@.drop_first());
        }
        Some(canister_id)
    }

    /// Notes that the upgrade of `canister_id` went through.
    pub fn mark_success(&mut self, canister_id: &CanisterId)
        requires
            old(self).wf(),
        ensures
            final(self).wf(),
            final(self)@ == (CanistersRequiringUpgradeView {
                in_progress: old(self)@.in_progress.remove(*canister_id),
                ..old(self)@
            }),
    {
        self.in_progress.remove(canister_id);
    }

    /// Notes that an upgrade failed: the canister is no longer under way and the failure is
    /// kept.
    pub fn mark_failure(&mut self, failed_upgrade: FailedUpgrade)
        requires
            old(self).wf(),
        ensures
            final(self).wf(),
            final(self)@ == (CanistersRequiringUpgradeView {
                pending: old(self)@.pending,
                in_progress: old(self)@.in_progress.remove(failed_upgrade.canister_id),
                failed: old(self)@.failed.push(failed_upgrade),
            }),
    {
        self.in_progress.remove(&failed_upgrade.canister_id);
        self.failed.push(failed_upgrade);
    }

    /// Whether the upgrade of `canister_id` is under way.
    pub fn is_in_progress(&self, canister_id: &CanisterId) -> (r: bool)
        ensures
            r == self@.in_progress.contains(*canister_id),
    {
        self.in_progress.contains(canister_id)
    }

    /// The number of canisters whose upgrade is under way, as far as 32 bits hold it.
    pub fn count_in_progress(&self) -> (r: u32)
        requires
            self.wf(),
        ensures
            r == (if self@.in_progress.len() > u32::MAX {
                u32::MAX as int
            } else {
                self@.in_progress.len() as int
            }),
    {
        let n = self.in_progress.len();
        if n > u32::MAX as usize {
            u32::MAX
        } else {
            n as u32
        }
    }

    /// The number of canisters that wait and of those under way, and the failures counted
    /// by path: one count for each run of neighbouring failures along the same path, the
    /// counts in the order of their paths.
    pub fn metrics(&self) -> (r: Metrics)
        requires
            self.wf(),
        ensures
            r.pending == self@.pending.len(),
            r.in_progress == self@.in_progress.len(),
            sorted_by_path(r.failed@),
            r.failed@.to_multiset() == counts_of_runs(self@.failed).to_multiset(),
    {
        let failed = sort_by_path(group_consecutive(&self.failed));
        Metrics { pending: self.pending.len(), in_progress: self.in_progress.len(), failed }
    }

    /// Forgets `canister_id`: it no longer waits, is no longer under way, and its failures
    /// are dropped. The others keep their order.
    pub fn remove(&mut self, canister_id: &CanisterId)
        requires
            old(self).wf(),
        ensures
            final(self).wf(),
            final(self)@ == (CanistersRequiringUpgradeView {
                pending: old(self)@.pending.filter(|id: CanisterId| id != *canister_id),
                in_progress: old(self)@.in_progress.remove(*canister_id),
                failed: old(self)@.failed.filter(
                    |f: FailedUpgrade| f.canister_id != *canister_id,
                ),
            }),
    {
        let ghost keep_id = |id: CanisterId| id != *canister_id;
        let ghost keep_failed = |f: FailedUpgrade| f.canister_id != *canister_id;
        let mut pending: Vec<CanisterId> = Vec::new();
        let mut i: usize = 0;
        while i < self.pending.len()
            invariant
                i <= self.pending@.len(),
                self.pending == old(self).pending,
                pending@ == self.pending@.subrange(0, i as int).filter(keep_id),
                keep_id == |id: CanisterId| id != *canister_id,
            decreases self.pending@.len() - i,
        {
            let id = self.pending[i];
            proof {
                let before = self.pending@.subrange(0, i as int);
                let after = self.pending@.subrange(0, i + 1);
                assert(after =~= before.push(id));
                assert(after.drop_last() =~= before);
                reveal(Seq::filter);
            }
            if !id.same(canister_id) {
                pending.push(id);
            }
            i += 1;
        }
        let mut failed: Vec<FailedUpgrade> = Vec::new();
        let mut j: usize = 0;
        while j < self.failed.len()
            invariant
                j <= self.failed@.len(),
                self.failed == old(self).failed,
                failed@ == self.failed@.subrange(0, j as int).filter(keep_failed),
                keep_failed == |f: FailedUpgrade| f.canister_id != *canister_id,
            decreases self.failed@.len() - j,
        {
            let f = self.failed[j];
            proof {
                let before = self.failed@.subrange(0, j as int);
                let after = self.failed@.subrange(0, j + 1);
                assert(after =~= before.push(f));
                assert(after.drop_last() =~= before);
                reveal(Seq::filter);
            }
            if !f.canister_id.same(canister_id) {
                failed.push(f);
            }
            j += 1;
        }
        proof {
            assert(self.pending@.subrange(0, self.pending@.len() as int) =~= self.pending@);
            assert(self.failed@.subrange(0, self.failed@.len() as int) =~= self.failed@);
        }
        self.pending = pending;
        self.failed = failed;
        self.in_progress.remove(canister_id);
    }
}

} // verus!
