use vstd::prelude::*;

verus! {

/// Identifier of an action (a record, a link or a tombstone) in the store.
#[derive(Clone, Copy, Debug, PartialEq, Eq, Structural, Hash)]
pub struct ActionHash {
    pub value: u64,
}

/// The kinds of link the health-record graph uses.
#[derive(Clone, Copy, Debug, PartialEq, Eq, Structural)]
pub enum LinkTypes {
    /// From a record's identity to one of its later versions.
    HealthRecordUpdates,
    /// From the registry anchor to the identity of a record.
    AllHealthRecords,
}

/// A directed, typed, timestamped edge between two hashes.
#[derive(Clone, Copy, Debug, PartialEq, Eq, Structural)]
pub struct Link {
    pub create_link_hash: ActionHash,
    pub base: ActionHash,
    pub target: ActionHash,
    pub link_type: LinkTypes,
    pub timestamp: i64,
}

/// The payload of a health record.
///
/// The blood pressure is kept as the bit pattern of a 32-bit float, so that
/// the value round-trips exactly.
#[derive(Clone, Debug, PartialEq)]
pub struct HealthRecord {
    pub first_name: String,
    pub family_name: String,
    pub age: i32,
    pub height: i32,
    pub weight: i32,
    pub blood_type: String,
    pub blood_pressure_bits: u32,
}

impl HealthRecord {
    /// A copy that is equal to `self`.
    pub fn duplicate(&self) -> (r: HealthRecord)
        ensures
            r == *self,
    {
        HealthRecord {
            first_name: self.first_name.clone(),
            family_name: self.family_name.clone(),
            age: self.age,
            height: self.height,
            weight: self.weight,
            blood_type: self.blood_type.clone(),
            blood_pressure_bits: self.blood_pressure_bits,
        }
    }
}

/// One stored version of a health record, with its provenance.
#[derive(Clone, Debug, PartialEq)]
pub struct Record {
    pub action_hash: ActionHash,
    pub author: u64,
    pub timestamp: i64,
    /// The version this one supersedes; `None` for the first version.
    pub revises: Option<ActionHash>,
    pub entry: HealthRecord,
}

impl Record {
    /// A copy that is equal to `self`.
    pub fn duplicate(&self) -> (r: Record)
        ensures
            r == *self,
    {
        Record {
            action_hash: self.action_hash,
            author: self.author,
            timestamp: self.timestamp,
            revises: self.revises,
            entry: self.entry.duplicate(),
        }
    }
}

/// A tombstone: who marked a record deleted, and when.
#[derive(Clone, Copy, Debug, PartialEq, Eq, Structural)]
pub struct DeleteMarker {
    pub action_hash: ActionHash,
    pub author: u64,
    pub timestamp: i64,
}

/// A tombstone together with the record it marks.
#[derive(Clone, Copy, Debug, PartialEq, Eq, Structural)]
pub struct DeleteAction {
    pub marker: DeleteMarker,
    pub deletes_address: ActionHash,
}

/// The verdict of a validation rule.
#[derive(Clone, Debug, PartialEq)]
pub enum ValidateCallbackResult {
    Valid,
    Invalid(String),
}

/// The errors the record operations signal.
#[derive(Clone, Debug, PartialEq)]
pub enum ZomeError {
    /// A payload or link was rejected by a validation rule.
    Validation(String),
    /// A referenced hash is not known to the store.
    NotFound(String),
    /// The store returned a result that cannot happen.
    Consistency(String),
    /// The store cannot accept more writes.
    StoreUnavailable,
}

/// The arguments of an update.
#[derive(Clone, Debug, PartialEq)]
pub struct UpdateHealthRecordInput {
    pub original_health_record_hash: ActionHash,
    pub previous_health_record_hash: ActionHash,
    pub updated_health_record: HealthRecord,
}

} // verus!
