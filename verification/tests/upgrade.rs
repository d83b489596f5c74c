use open_storage::types::{Principal, Version};
use open_storage::upgrade::{sort_by_path, CanistersRequiringUpgrade, FailedUpgrade, FailedUpgradeCount};

fn principal(n: u8) -> Principal {
    Principal::from_slice(&[n]).unwrap()
}

fn version(major: u32, minor: u32, patch: u32) -> Version {
    Version { major, minor, patch }
}

fn failure(canister: u8, from: Version, to: Version) -> FailedUpgrade {
    FailedUpgrade { canister_id: principal(canister), from_version: from, to_version: to }
}

#[test]
fn canisters_are_taken_in_order() {
    let mut upgrades = CanistersRequiringUpgrade::new();
    assert_eq!(upgrades.try_take_next(), None);
    upgrades.enqueue(principal(1));
    upgrades.enqueue(principal(2));
    upgrades.enqueue(principal(3));
    assert_eq!(upgrades.count_in_progress(), 0);
    assert_eq!(upgrades.try_take_next(), Some(principal(1)));
    assert_eq!(upgrades.try_take_next(), Some(principal(2)));
    assert!(upgrades.is_in_progress(&principal(1)));
    assert!(!upgrades.is_in_progress(&principal(3)));
    assert_eq!(upgrades.count_in_progress(), 2);
    upgrades.mark_success(&principal(1));
    assert!(!upgrades.is_in_progress(&principal(1)));
    upgrades.mark_failure(failure(2, version(1, 0, 0), version(1, 1, 0)));
    assert_eq!(upgrades.count_in_progress(), 0);
    let metrics = upgrades.metrics();
    assert_eq!(metrics.pending, 1);
    assert_eq!(metrics.in_progress, 0);
    assert_eq!(
        metrics.failed,
        vec![FailedUpgradeCount { from_version: version(1, 0, 0), to_version: version(1, 1, 0), count: 1 }]
    );
}

#[test]
fn failures_are_counted_by_run_and_sorted() {
    let (v1, v2, v3) = (version(1, 0, 0), version(1, 2, 0), version(1, 10, 0));
    let mut upgrades = CanistersRequiringUpgrade::new();
    for (canister, from, to) in
        [(1u8, v2, v3), (2, v2, v3), (3, v1, v3), (4, v2, v3), (5, v1, v2), (6, v1, v2), (7, v1, v2)]
    {
        upgrades.mark_failure(failure(canister, from, to));
    }
    let metrics = upgrades.metrics();
    // Failures along the same path that are not neighbours are counted apart.
    assert_eq!(
        metrics.failed,
        vec![
            FailedUpgradeCount { from_version: v1, to_version: v2, count: 3 },
            FailedUpgradeCount { from_version: v1, to_version: v3, count: 1 },
            FailedUpgradeCount { from_version: v2, to_version: v3, count: 2 },
            FailedUpgradeCount { from_version: v2, to_version: v3, count: 1 },
        ]
    );
}

#[test]
fn removing_a_canister_forgets_it_everywhere() {
    let mut upgrades = CanistersRequiringUpgrade::new();
    for n in [1u8, 2, 1, 3] {
        upgrades.enqueue(principal(n));
    }
    upgrades.enqueue(principal(4));
    assert_eq!(upgrades.try_take_next(), Some(principal(1)));
    upgrades.mark_failure(failure(1, version(1, 0, 0), version(2, 0, 0)));
    upgrades.mark_failure(failure(5, version(1, 0, 0), version(2, 0, 0)));
    assert_eq!(upgrades.try_take_next(), Some(principal(2)));
    assert_eq!(upgrades.try_take_next(), Some(principal(1)));
    upgrades.remove(&principal(1));
    assert!(!upgrades.is_in_progress(&principal(1)));
    assert!(upgrades.is_in_progress(&principal(2)));
    let metrics = upgrades.metrics();
    assert_eq!(metrics.pending, 2);
    assert_eq!(metrics.in_progress, 1);
    assert_eq!(metrics.failed.len(), 1);
    assert_eq!(metrics.failed[0].count, 1);
    upgrades.remove(&principal(3));
    assert_eq!(upgrades.try_take_next(), Some(principal(4)));
    assert_eq!(upgrades.try_take_next(), None);
}

#[test]
fn counts_are_sorted_by_every_number() {
    let count = |from: Version, to: Version, count: usize| FailedUpgradeCount {
        from_version: from,
        to_version: to,
        count,
    };
    let a = version(1, 2, 3);
    let input = vec![
        count(version(2, 0, 0), a, 1),
        count(version(1, 3, 0), a, 2),
        count(version(1, 2, 4), a, 3),
        count(version(1, 2, 3), version(1, 2, 4), 4),
        count(version(1, 2, 3), a, 5),
        count(version(1, 2, 3), a, 6),
    ];
    let sorted: Vec<usize> = sort_by_path(input).iter().map(|c| c.count).collect();
    assert_eq!(sorted, vec![5, 6, 4, 3, 2, 1]);
    assert!(count(a, a, 0).comes_before(&count(a, version(1, 2, 4), 0)));
    assert!(!count(a, a, 0).comes_before(&count(a, a, 1)));
}
