//! Tests for the catalog-facing data-transfer models.

use std::collections::HashMap;

use icelake::models::{
    Action, MetricResult, RemoveSnapshotsUpdateAllOf, SetDefaultSortOrderUpdateAllOf,
    SetPropertiesUpdate,
};

#[test]
fn metric_result_new_keeps_fields() {
    let m = MetricResult::new("bytes".to_string(), 7, "ms".to_string(), 2, 90);
    assert_eq!(m.unit, "bytes");
    assert_eq!(m.value, 7);
    assert_eq!(m.time_unit, "ms");
    assert_eq!(m.count, 2);
    assert_eq!(m.total_duration, 90);
}

#[test]
fn metric_result_default_is_zeroed() {
    let m = MetricResult::default();
    assert_eq!(m.unit, "");
    assert_eq!(m.value, 0);
    assert_eq!(m.count, 0);
    assert_eq!(m.total_duration, 0);
}

#[test]
fn remove_snapshots_update_keeps_ids() {
    let u = RemoveSnapshotsUpdateAllOf::new(vec![3, 1, 4]);
    assert_eq!(u.snapshot_ids, vec![3, 1, 4]);
    assert_eq!(RemoveSnapshotsUpdateAllOf::default().snapshot_ids.len(), 0);
}

#[test]
fn set_default_sort_order_update_keeps_id() {
    let u = SetDefaultSortOrderUpdateAllOf::new(-1);
    assert_eq!(u.sort_order_id, -1);
    assert_eq!(SetDefaultSortOrderUpdateAllOf::default().sort_order_id, 0);
}

#[test]
fn set_properties_update_keeps_action_and_map() {
    let mut updates = HashMap::new();
    updates.insert("owner".to_string(), "me".to_string());
    let u = SetPropertiesUpdate::new(Action::SetProperties, updates);
    assert_eq!(u.action, Action::SetProperties);
    assert_eq!(u.updates.get("owner").map(|s| s.as_str()), Some("me"));
}

#[test]
fn action_default_is_upgrade_format_version() {
    assert_eq!(Action::default(), Action::UpgradeFormatVersion);
}
