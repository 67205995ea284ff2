//! Catalog-facing data-transfer models: plain records used to
//! communicate table metadata updates to a catalog service.

use std::collections::HashMap;

use vstd::prelude::*;

verus! {

/// One reported metric value.
#[derive(Clone, Debug, PartialEq)]
pub struct MetricResult {
    /// Unit of the value.
    pub unit: String,
    /// The metric's value.
    pub value: i64,
    /// Unit of the duration.
    pub time_unit: String,
    /// Number of observations.
    pub count: i64,
    /// Total observed duration.
    pub total_duration: i64,
}

impl MetricResult {
    /// Assemble a metric result.
    pub fn new(unit: String, value: i64, time_unit: String, count: i64, total_duration: i64) -> (r:
        MetricResult)
        ensures
            r.unit == unit,
            r.value == value,
            r.time_unit == time_unit,
            r.count == count,
            r.total_duration == total_duration,
    {
        MetricResult { unit, value, time_unit, count, total_duration }
    }
}

impl Default for MetricResult {
    /// An empty metric: empty units, all counters zero.
    fn default() -> (r: MetricResult)
        ensures
            r.unit@ == Seq::<char>::empty(),
            r.value == 0,
            r.time_unit@ == Seq::<char>::empty(),
            r.count == 0,
            r.total_duration == 0,
    {
        let r = MetricResult {
            unit: String::new(),
            value: 0,
            time_unit: String::new(),
            count: 0,
            total_duration: 0,
        };
        r
    }
}

/// A table update removing the listed snapshots.
#[derive(Clone, Debug, PartialEq)]
pub struct RemoveSnapshotsUpdateAllOf {
    /// Ids of the snapshots to remove.
    pub snapshot_ids: Vec<i64>,
}

impl RemoveSnapshotsUpdateAllOf {
    /// Wrap the snapshot ids to remove.
    pub fn new(snapshot_ids: Vec<i64>) -> (r: RemoveSnapshotsUpdateAllOf)
        ensures
            r.snapshot_ids == snapshot_ids,
    {
        RemoveSnapshotsUpdateAllOf { snapshot_ids }
    }
}

impl Default for RemoveSnapshotsUpdateAllOf {
    /// An update removing no snapshots.
    fn default() -> (r: RemoveSnapshotsUpdateAllOf)
        ensures
            r.snapshot_ids@.len() == 0,
    {
        RemoveSnapshotsUpdateAllOf { snapshot_ids: Vec::new() }
    }
}

/// A table update choosing the default sort order.
#[derive(Clone, Copy, Debug, PartialEq, Eq, Structural)]
pub struct SetDefaultSortOrderUpdateAllOf {
    /// Sort order id to set as the default, or -1 to set the last added
    /// sort order.
    pub sort_order_id: i32,
}

impl SetDefaultSortOrderUpdateAllOf {
    /// Wrap the sort order id.
    pub fn new(sort_order_id: i32) -> (r: SetDefaultSortOrderUpdateAllOf)
        ensures
            r.sort_order_id == sort_order_id,
    {
        SetDefaultSortOrderUpdateAllOf { sort_order_id }
    }
}

impl Default for SetDefaultSortOrderUpdateAllOf {
    /// Defaults to sort order id zero.
    fn default() -> (r: SetDefaultSortOrderUpdateAllOf)
        ensures
            r.sort_order_id == 0,
    {
        SetDefaultSortOrderUpdateAllOf { sort_order_id: 0 }
    }
}

/// The action discriminator of a table metadata update.
#[derive(Clone, Copy, Debug, Eq, PartialEq, Ord, PartialOrd, Hash, Structural)]
pub enum Action {
    /// Raise the table's format version.
    UpgradeFormatVersion,
    /// Add a schema.
    AddSchema,
    /// Choose the current schema.
    SetCurrentSchema,
    /// Add a partition spec.
    AddSpec,
    /// Choose the default partition spec.
    SetDefaultSpec,
    /// Add a sort order.
    AddSortOrder,
    /// Choose the default sort order.
    SetDefaultSortOrder,
    /// Add a snapshot.
    AddSnapshot,
    /// Set a snapshot reference.
    SetSnapshotRef,
    /// Remove snapshots.
    RemoveSnapshots,
    /// Remove a snapshot reference.
    RemoveSnapshotRef,
    /// Set the table location.
    SetLocation,
    /// Set table properties.
    SetProperties,
    /// Remove table properties.
    RemoveProperties,
}

impl Default for Action {
    /// Defaults to upgrading the format version.
    fn default() -> (r: Action)
        ensures
            r == Action::UpgradeFormatVersion,
    {
        Action::UpgradeFormatVersion
    }
}

/// A table update setting string properties.
#[derive(Clone, Debug, PartialEq)]
pub struct SetPropertiesUpdate {
    /// The update's action discriminator.
    pub action: Action,
    /// The properties to set.
    pub updates: HashMap<String, String>,
}

impl SetPropertiesUpdate {
    /// Assemble a property update.
    pub fn new(action: Action, updates: HashMap<String, String>) -> (r: SetPropertiesUpdate)
        ensures
            r.action == action,
            r.updates == updates,
    {
        SetPropertiesUpdate { action, updates }
    }
}

} // verus!
