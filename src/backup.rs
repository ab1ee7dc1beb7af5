use crate::store::StoreView;
use crate::model::{BundleEntry, Food, Meal, Sport, clone_entries, clone_sets};
use vstd::prelude::*;

verus! {

/// A stored body-weight sample, with its owner.
#[derive(Debug, Clone, Copy, PartialEq, Eq, Structural)]
pub struct WeightBackup {
    pub user_id: i64,
    pub timestamp: i64,
    pub value: i64,
}

/// A stored food; foods are shared by all users.
pub type FoodBackup = Food;

/// Stored settings of one user.
#[derive(Debug, Clone, Copy, PartialEq, Eq, Structural)]
pub struct UserSettingsBackup {
    pub user_id: i64,
    pub cal_limit: i64,
}

/// A stored bundle, with its owner.
#[derive(Debug, PartialEq)]
pub struct BundleBackup {
    pub user_id: i64,
    pub key: String,
    pub data: Vec<BundleEntry>,
}

impl View for BundleBackup {
    type V = (i64, Seq<char>, Seq<BundleEntry>);

    open spec fn view(&self) -> (i64, Seq<char>, Seq<BundleEntry>) {
        (self.user_id, self.key@, self.data@)
    }
}

impl Clone for BundleBackup {
    fn clone(&self) -> (r: BundleBackup)
        ensures
            r@ == self@,
    {
        let data = clone_entries(&self.data);
        proof {
            assert(data@ == self.data@);
        }
        BundleBackup { user_id: self.user_id, key: self.key.clone(), data }
    }
}

/// A stored journal entry, with its owner.
#[derive(Debug, PartialEq)]
pub struct JournalBackup {
    pub user_id: i64,
    pub timestamp: i64,
    pub meal: Meal,
    pub food_key: String,
    pub food_weight: i64,
}

impl Clone for JournalBackup {
    fn clone(&self) -> (r: JournalBackup)
        ensures
            r == *self,
    {
        JournalBackup {
            user_id: self.user_id,
            timestamp: self.timestamp,
            meal: self.meal,
            food_key: self.food_key.clone(),
            food_weight: self.food_weight,
        }
    }
}

/// A stored sport; sports are shared by all users.
pub type SportBackup = Sport;

/// A stored sport activity record, with its owner.
#[derive(Debug, PartialEq)]
pub struct SportActivityBackup {
    pub user_id: i64,
    pub sport_key: String,
    pub timestamp: i64,
    pub sets: Vec<i64>,
}

impl View for SportActivityBackup {
    type V = (i64, Seq<char>, i64, Seq<i64>);

    open spec fn view(&self) -> (i64, Seq<char>, i64, Seq<i64>) {
        (self.user_id, self.sport_key@, self.timestamp, self.sets@)
    }
}

impl Clone for SportActivityBackup {
    fn clone(&self) -> (r: SportActivityBackup)
        ensures
            r@ == self@,
    {
        let sets = clone_sets(&self.sets);
        proof {
            assert(sets@ == self.sets@);
        }
        SportActivityBackup {
            user_id: self.user_id,
            sport_key: self.sport_key.clone(),
            timestamp: self.timestamp,
            sets,
        }
    }
}

impl View for Backup {
    type V = StoreView;

    open spec fn view(&self) -> StoreView {
        StoreView {
            weight: self.weight@,
            food: self.food@,
            user_settings: self.user_settings@,
            bundle: self.bundle@.map_values(|b: BundleBackup| b@),
            journal: self.journal@,
            sport: self.sport@,
            sport_activity: self.sport_activity@.map_values(|a: SportActivityBackup| a@),
        }
    }
}

/// The whole content of a store at one moment.
#[derive(Debug, PartialEq)]
pub struct Backup {
    pub timestamp: i64,
    pub weight: Vec<WeightBackup>,
    pub food: Vec<FoodBackup>,
    pub user_settings: Vec<UserSettingsBackup>,
    pub bundle: Vec<BundleBackup>,
    pub journal: Vec<JournalBackup>,
    pub sport: Vec<SportBackup>,
    pub sport_activity: Vec<SportActivityBackup>,
}

} // verus!
