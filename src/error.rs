use vstd::prelude::*;

verus! {

/// Closed set of failure kinds reported by the store.
#[derive(Debug, Clone, Copy, PartialEq, Eq, Structural)]
pub enum StorageError {
    Unknown,
    EmptyResult,
    WeightInvalid,
    FoodInvalid,
    FoodIsUsed,
    FoodNotFound,
    SportInvalid,
    SportNotFound,
    SportIsUsedViolation,
    SportActivityInvalid,
    UserSettingsInvalid,
    UserSettingsNotFound,
    BundleInvalid,
    BundleDepFoodNotFound,
    BundleDepBundleNotFound,
    BundleDepRecursive,
    BundleIsUsed,
    BundleNotFound,
    JournalInvalid,
}

impl Default for StorageError {
    fn default() -> (r: StorageError)
        ensures
            r == StorageError::Unknown,
    {
        StorageError::Unknown
    }
}

} // verus!
