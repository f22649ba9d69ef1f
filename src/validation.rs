//! The admission rules for health records and their links.
use vstd::prelude::*;
use crate::store::Store;
use crate::types::{ActionHash, HealthRecord, ValidateCallbackResult, ZomeError};

verus! {

/// Every well-typed health record may be created.
pub fn validate_create_health_record(_health_record: &HealthRecord) -> (r: ValidateCallbackResult)
    ensures
        r == ValidateCallbackResult::Valid,
{
    ValidateCallbackResult::Valid
}

/// Every well-typed health record may replace another.
pub fn validate_update_health_record(
    _health_record: &HealthRecord,
    _original_health_record: &HealthRecord,
) -> (r: ValidateCallbackResult)
    ensures
        r == ValidateCallbackResult::Valid,
{
    ValidateCallbackResult::Valid
}

/// Every health record may be deleted.
pub fn validate_delete_health_record(_original_health_record: &HealthRecord) -> (r: ValidateCallbackResult)
    ensures
        r == ValidateCallbackResult::Valid,
{
    ValidateCallbackResult::Valid
}

/// An update link must join two stored health records. Where either is not
/// stored (not yet visible here), there is no verdict yet: the check fails
/// with `NotFound` and may succeed once the record arrives.
pub fn validate_create_link_health_record_updates(
    store: &Store,
    base_address: ActionHash,
    target_address: ActionHash,
) -> (r: Result<ValidateCallbackResult, ZomeError>)
    ensures
        store@.get(base_address) is Some && store@.get(target_address) is Some ==> r == Ok::<
            ValidateCallbackResult,
            ZomeError,
        >(ValidateCallbackResult::Valid),
        !(store@.get(base_address) is Some && store@.get(target_address) is Some) ==> r is Err
            && r->Err_0 is NotFound,
{
    if store.get(base_address).is_none() || store.get(target_address).is_none() {
        return Err(ZomeError::NotFound(String::from_str("Linked action must reference an entry")));
    }
    Ok(ValidateCallbackResult::Valid)
}

/// Update links are permanent: deleting one is never valid.
pub fn validate_delete_link_health_record_updates() -> (r: ValidateCallbackResult)
    ensures
        r matches ValidateCallbackResult::Invalid(s) && s@ == "HealthRecordUpdates links cannot be deleted"@,
{
    ValidateCallbackResult::Invalid(String::from_str("HealthRecordUpdates links cannot be deleted"))
}

/// A registry link must point at a stored health record. Where the target is
/// not stored (not yet visible here), the check fails with `NotFound`.
pub fn validate_create_link_all_health_records(store: &Store, target_address: ActionHash) -> (r:
    Result<ValidateCallbackResult, ZomeError>)
    ensures
        store@.get(target_address) is Some ==> r == Ok::<ValidateCallbackResult, ZomeError>(
            ValidateCallbackResult::Valid,
        ),
        store@.get(target_address) is None ==> r is Err && r->Err_0 is NotFound,
{
    if store.get(target_address).is_none() {
        return Err(ZomeError::NotFound(String::from_str("Linked action must reference an entry")));
    }
    Ok(ValidateCallbackResult::Valid)
}

/// Registry links may always be removed.
pub fn validate_delete_link_all_health_records() -> (r: ValidateCallbackResult)
    ensures
        r == ValidateCallbackResult::Valid,
{
    ValidateCallbackResult::Valid
}

} // verus!
