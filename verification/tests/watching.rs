//! The runtime-version watch: deduplicated delivery and idempotent
//! termination.

use state_rpc::version::RuntimeVersion;
use state_rpc::watch::{SubscriptionSinks, VersionTick};

fn version(spec_version: u32) -> RuntimeVersion {
    RuntimeVersion {
        spec_name: b"node".to_vec(),
        spec_version,
        impl_version: 0,
        transaction_version: 1,
        apis: vec![(1, 1)],
    }
}

#[test]
fn first_version_is_always_delivered() {
    let mut watch = SubscriptionSinks::new();
    let out = watch.subscribe(&version(1), &Vec::new());
    assert_eq!(out, vec![version(1)]);
}

#[test]
fn unchanged_versions_are_suppressed() {
    let mut watch = SubscriptionSinks::new();
    let ticks = vec![
        VersionTick::Computed(version(1)),
        VersionTick::Computed(version(1)),
        VersionTick::Computed(version(2)),
        VersionTick::Computed(version(2)),
        VersionTick::Computed(version(3)),
    ];
    let out = watch.subscribe(&version(1), &ticks);
    assert_eq!(out, vec![version(1), version(2), version(3)]);
}

#[test]
fn no_two_consecutive_deliveries_are_equal() {
    let mut watch = SubscriptionSinks::new();
    let ticks = vec![
        VersionTick::Computed(version(2)),
        VersionTick::Computed(version(1)),
        VersionTick::Computed(version(1)),
        VersionTick::Computed(version(2)),
    ];
    let out = watch.subscribe(&version(1), &ticks);
    assert_eq!(out, vec![version(1), version(2), version(1), version(2)]);
    for w in out.windows(2) {
        assert_ne!(w[0], w[1]);
    }
}

#[test]
fn failed_recomputation_is_suppressed_without_ending_the_subscription() {
    let mut watch = SubscriptionSinks::new();
    let ticks = vec![
        VersionTick::Failed,
        VersionTick::Computed(version(2)),
        VersionTick::Failed,
        VersionTick::Computed(version(2)),
    ];
    let out = watch.subscribe(&version(1), &ticks);
    assert_eq!(out, vec![version(1), version(2)]);
}

#[test]
fn an_old_version_returning_is_delivered_again() {
    let mut watch = SubscriptionSinks::new();
    let ticks = vec![
        VersionTick::Computed(version(2)),
        VersionTick::Computed(version(1)),
    ];
    let out = watch.subscribe(&version(1), &ticks);
    assert_eq!(out, vec![version(1), version(2), version(1)]);
}

#[test]
fn nothing_is_delivered_after_unsubscribing() {
    let mut watch = SubscriptionSinks::new();
    assert_eq!(
        watch.on_tick(&VersionTick::Computed(version(1))),
        Some(version(1))
    );
    watch.unsubscribe();
    assert_eq!(watch.on_tick(&VersionTick::Computed(version(2))), None);
    // Unsubscribing again changes nothing.
    watch.unsubscribe();
    assert_eq!(watch.on_tick(&VersionTick::Computed(version(3))), None);
}
