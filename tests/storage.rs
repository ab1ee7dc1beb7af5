use nutrition_journal::backup::{
    Backup, BundleBackup, FoodBackup, JournalBackup, SportActivityBackup, SportBackup,
    UserSettingsBackup, WeightBackup,
};
use nutrition_journal::error::StorageError;
use nutrition_journal::model::{
    Bundle, BundleEntry, Food, Journal, JournalReport, Meal, Sport, SportActivity,
    SportActivityReport, UserSettings, Weight,
};
use nutrition_journal::store::Store;

fn food(key: &str, name: &str, brand: &str, v: [i64; 4], comment: &str) -> Food {
    Food {
        key: key.into(),
        name: name.into(),
        brand: brand.into(),
        cal100: v[0],
        prot100: v[1],
        fat100: v[2],
        carb100: v[3],
        comment: comment.into(),
    }
}

fn sport(key: &str, name: &str, comment: &str) -> Sport {
    Sport { key: key.into(), name: name.into(), comment: comment.into() }
}

fn fref(key: &str, weight: i64) -> BundleEntry {
    BundleEntry::Food { key: key.into(), weight }
}

fn bref(key: &str) -> BundleEntry {
    BundleEntry::Bundle { key: key.into() }
}

fn empty_backup() -> Backup {
    Backup {
        timestamp: 0,
        weight: vec![],
        food: vec![],
        user_settings: vec![],
        bundle: vec![],
        journal: vec![],
        sport: vec![],
        sport_activity: vec![],
    }
}

fn weight(timestamp: i64, value: i64) -> Weight {
    Weight { timestamp, value }
}

#[test]
fn test_get_weight_list() {
    let mut stg = Store::new();
    assert_eq!(stg.get_weight_list(1, 0, 10).unwrap_err(), StorageError::EmptyResult);

    stg.set_weight(1, weight(1, 1100)).unwrap();
    stg.set_weight(1, weight(2, 2200)).unwrap();
    stg.set_weight(1, weight(3, 3300)).unwrap();
    stg.set_weight(2, weight(4, 4400)).unwrap();

    assert_eq!(
        vec![weight(1, 1100), weight(2, 2200), weight(3, 3300)],
        stg.get_weight_list(1, 0, 10).unwrap()
    );
    assert_eq!(vec![weight(4, 4400)], stg.get_weight_list(2, 0, 10).unwrap());
}

#[test]
fn weight_list_is_ordered_by_time_and_bounded() {
    let mut stg = Store::new();
    stg.set_weight(1, weight(5, 5000)).unwrap();
    stg.set_weight(1, weight(1, 1000)).unwrap();
    stg.set_weight(1, weight(3, 3000)).unwrap();
    stg.set_weight(1, weight(11, 11000)).unwrap();
    assert_eq!(
        vec![weight(1, 1000), weight(3, 3000), weight(5, 5000)],
        stg.get_weight_list(1, 1, 10).unwrap()
    );
}

#[test]
fn test_delete_weight() {
    let mut stg = Store::new();
    stg.set_weight(1, weight(1, 1100)).unwrap();
    stg.set_weight(2, weight(4, 4400)).unwrap();

    stg.delete_weight(2, 4);
    assert_eq!(stg.get_weight_list(2, 0, 10).unwrap_err(), StorageError::EmptyResult);
    assert_eq!(vec![weight(1, 1100)], stg.get_weight_list(1, 0, 10).unwrap());
}

#[test]
fn test_set_weight() {
    let mut stg = Store::new();
    let res = stg.set_weight(1, weight(1734876557, -1100));
    assert_eq!(res.unwrap_err(), StorageError::WeightInvalid);

    stg.set_weight(1, weight(1734876557, 1100)).unwrap();
    let rows = stg.backup(0).weight;
    assert_eq!(1, rows.len());
    assert_eq!(WeightBackup { user_id: 1, timestamp: 1734876557, value: 1100 }, rows[0]);

    stg.set_weight(1, weight(1734876557, 2200)).unwrap();
    let rows = stg.backup(0).weight;
    assert_eq!(1, rows.len());
    assert_eq!(WeightBackup { user_id: 1, timestamp: 1734876557, value: 2200 }, rows[0]);
}

#[test]
fn weight_upsert_replaces_value() {
    let mut stg = Store::new();
    stg.set_weight(1, weight(1, 70500)).unwrap();
    assert_eq!(vec![weight(1, 70500)], stg.get_weight_list(1, 0, 10).unwrap());
    stg.set_weight(1, weight(1, 71000)).unwrap();
    assert_eq!(vec![weight(1, 71000)], stg.get_weight_list(1, 0, 10).unwrap());
}

#[test]
fn test_set_food() {
    let mut stg = Store::new();
    let res = stg.set_food(food("", "name", "brand", [1100, 2200, 3300, 4400], "comment"));
    assert_eq!(res.unwrap_err(), StorageError::FoodInvalid);

    stg.set_food(food("key", "name", "brand", [1100, 2200, 3300, 4400], "comment")).unwrap();
    let rows = stg.backup(0).food;
    assert_eq!(1, rows.len());
    assert_eq!(food("key", "name", "brand", [1100, 2200, 3300, 4400], "comment"), rows[0]);

    stg.set_food(food("key", "name", "", [5500, 6600, 7700, 8800], "")).unwrap();
    let rows = stg.backup(0).food;
    assert_eq!(1, rows.len());
    assert_eq!(food("key", "name", "", [5500, 6600, 7700, 8800], ""), rows[0]);
}

#[test]
fn test_get_food() {
    let mut stg = Store::new();
    assert_eq!(stg.get_food("key").unwrap_err(), StorageError::FoodNotFound);

    let f = food("key", "name", "brand", [1100, 2200, 3300, 4400], "comment");
    stg.set_food(f.clone()).unwrap();
    assert_eq!(f, stg.get_food("key").unwrap());
}

#[test]
fn food_second_write_replaces_every_field() {
    let mut stg = Store::new();
    stg.set_food(food("key", "name", "brand", [1, 2, 3, 4], "comment")).unwrap();
    let g = food("key", "other", "", [5, 6, 7, 8], "");
    stg.set_food(g.clone()).unwrap();
    assert_eq!(g, stg.get_food("key").unwrap());
}

#[test]
fn test_get_food_list() {
    let mut stg = Store::new();
    assert_eq!(stg.get_food_list().unwrap_err(), StorageError::EmptyResult);

    let f1 = food("key1", "name1", "brand", [1100, 2200, 3300, 4400], "comment");
    stg.set_food(f1.clone()).unwrap();
    let f2 = food("key2", "name2", "brand", [1100, 2200, 3300, 4400], "comment");
    stg.set_food(f2.clone()).unwrap();

    assert_eq!(vec![f1, f2], stg.get_food_list().unwrap());
}

#[test]
fn food_list_is_ordered_by_name() {
    let mut stg = Store::new();
    let f1 = food("a", "zeta", "", [0, 0, 0, 0], "");
    let f2 = food("b", "alpha", "", [0, 0, 0, 0], "");
    let f3 = food("c", "Еда", "", [0, 0, 0, 0], "");
    stg.set_food(f1.clone()).unwrap();
    stg.set_food(f3.clone()).unwrap();
    stg.set_food(f2.clone()).unwrap();
    assert_eq!(vec![f2, f1, f3], stg.get_food_list().unwrap());
}

#[test]
fn test_delete_food() {
    let mut stg = Store::new();
    let f1 = food("key1", "name1", "brand", [1100, 2200, 3300, 4400], "comment");
    stg.set_food(f1.clone()).unwrap();
    let f2 = food("key2", "name2", "brand", [1100, 2200, 3300, 4400], "comment");
    stg.set_food(f2.clone()).unwrap();

    assert_eq!(vec![f1, f2.clone()], stg.get_food_list().unwrap());
    stg.delete_food("key1").unwrap();
    assert_eq!(vec![f2], stg.get_food_list().unwrap());
    stg.delete_food("key2").unwrap();
    assert_eq!(stg.get_food_list().unwrap_err(), StorageError::EmptyResult);
}

#[test]
fn test_delete_food_with_bundle() {
    let mut stg = Store::new();
    stg.set_food(food("key1", "name1", "brand", [1100, 2200, 3300, 4400], "comment")).unwrap();
    stg.set_food(food("key2", "name2", "brand", [1100, 2200, 3300, 4400], "comment")).unwrap();
    stg.set_bundle(1, Bundle { key: "bndl_key".into(), data: vec![fref("key1", 123123)] })
        .unwrap();

    assert_eq!(stg.delete_food("key1").unwrap_err(), StorageError::FoodIsUsed);
    stg.delete_food("key2").unwrap();
}

#[test]
fn food_delete_succeeds_once_bundle_entry_removed() {
    let mut stg = Store::new();
    stg.set_food(food("key1", "name1", "", [0, 0, 0, 0], "")).unwrap();
    stg.set_food(food("key2", "name2", "", [0, 0, 0, 0], "")).unwrap();
    stg.set_bundle(1, Bundle { key: "b".into(), data: vec![fref("key1", 1000), fref("key2", 1000)] })
        .unwrap();
    assert_eq!(stg.delete_food("key1").unwrap_err(), StorageError::FoodIsUsed);
    stg.set_bundle(1, Bundle { key: "b".into(), data: vec![fref("key2", 1000)] }).unwrap();
    stg.delete_food("key1").unwrap();
    assert_eq!(stg.get_food("key1").unwrap_err(), StorageError::FoodNotFound);
}

#[test]
fn food_used_in_journal_cannot_be_deleted() {
    let mut stg = Store::new();
    stg.set_food(food("key1", "name1", "", [0, 0, 0, 0], "")).unwrap();
    stg.set_journal(
        1,
        Journal { timestamp: 1, meal: Meal::Breakfast, food_key: "key1".into(), food_weight: 1000 },
    )
    .unwrap();
    assert_eq!(stg.delete_food("key1").unwrap_err(), StorageError::FoodIsUsed);
}

#[test]
fn test_find_food() {
    let mut stg = Store::new();
    assert_eq!(stg.find_food("some food").unwrap_err(), StorageError::EmptyResult);

    let f1 = food("key1", "name1", "brand", [1100, 2200, 3300, 4400], "comment");
    stg.set_food(f1.clone()).unwrap();
    let f2 = food("key2", "name2", "brand", [1100, 2200, 3300, 4400], "comment");
    stg.set_food(f2.clone()).unwrap();
    let f3 = food("key3", "Сырок Дружба", "Вкусвилл", [1100, 2200, 3300, 4400], "Вкусный");
    stg.set_food(f3.clone()).unwrap();

    assert_eq!(vec![f1.clone(), f2.clone(), f3.clone()], stg.find_food("kEy").unwrap());
    assert_eq!(vec![f2], stg.find_food("NAMe2").unwrap());
    assert_eq!(vec![f3.clone()], stg.find_food("дружба").unwrap());
    assert_eq!(vec![f3.clone()], stg.find_food("вкусВиЛЛ").unwrap());
    assert_eq!(vec![f3.clone()], stg.find_food("нЫЙ").unwrap());
}

#[test]
fn test_set_sport() {
    let mut stg = Store::new();
    assert_eq!(stg.set_sport(sport("", "name", "comment")).unwrap_err(), StorageError::SportInvalid);

    stg.set_sport(sport("key", "name", "comment")).unwrap();
    let rows = stg.backup(0).sport;
    assert_eq!(vec![sport("key", "name", "comment")], rows);

    stg.set_sport(sport("key", "name", "")).unwrap();
    let rows = stg.backup(0).sport;
    assert_eq!(vec![sport("key", "name", "")], rows);
}

#[test]
fn test_get_sport() {
    let mut stg = Store::new();
    assert_eq!(stg.get_sport("key").unwrap_err(), StorageError::SportNotFound);
    let s = sport("key", "name", "comment");
    stg.set_sport(s.clone()).unwrap();
    assert_eq!(s, stg.get_sport("key").unwrap());
}

#[test]
fn test_get_sport_list() {
    let mut stg = Store::new();
    assert_eq!(stg.get_sport_list().unwrap_err(), StorageError::EmptyResult);
    let s1 = sport("key1", "name1", "comment");
    stg.set_sport(s1.clone()).unwrap();
    let s2 = sport("key2", "name2", "comment");
    stg.set_sport(s2.clone()).unwrap();
    assert_eq!(vec![s1, s2], stg.get_sport_list().unwrap());
}

#[test]
fn test_delete_sport() {
    let mut stg = Store::new();
    let s1 = sport("key1", "name1", "comment");
    stg.set_sport(s1.clone()).unwrap();
    let s2 = sport("key2", "name2", "comment");
    stg.set_sport(s2.clone()).unwrap();

    assert_eq!(vec![s1, s2.clone()], stg.get_sport_list().unwrap());
    stg.delete_sport("key1").unwrap();
    assert_eq!(vec![s2], stg.get_sport_list().unwrap());
    stg.delete_sport("key2").unwrap();
    assert_eq!(stg.get_sport_list().unwrap_err(), StorageError::EmptyResult);
}

#[test]
fn test_set_sport_activity() {
    let mut stg = Store::new();
    let res = stg.set_sport_activity(
        1,
        SportActivity { sport_key: "test".into(), timestamp: 0, sets: vec![] },
    );
    assert_eq!(res.unwrap_err(), StorageError::SportActivityInvalid);

    let res = stg.set_sport_activity(
        1,
        SportActivity { sport_key: "test".into(), timestamp: 0, sets: vec![1, 2, 3] },
    );
    assert_eq!(res.unwrap_err(), StorageError::SportInvalid);

    stg.set_sport(sport("test", "test", "")).unwrap();
    stg.set_sport_activity(1, SportActivity { sport_key: "test".into(), timestamp: 1, sets: vec![1] })
        .unwrap();
    let rows = stg.backup(0).sport_activity;
    assert_eq!(
        vec![SportActivityBackup { user_id: 1, sport_key: "test".into(), timestamp: 1, sets: vec![1] }],
        rows
    );

    stg.set_sport_activity(
        1,
        SportActivity { sport_key: "test".into(), timestamp: 1, sets: vec![1, 2, 3] },
    )
    .unwrap();
    let rows = stg.backup(0).sport_activity;
    assert_eq!(
        vec![SportActivityBackup {
            user_id: 1,
            sport_key: "test".into(),
            timestamp: 1,
            sets: vec![1, 2, 3]
        }],
        rows
    );
}

fn report(name: &str, timestamp: i64, sets: Vec<i64>) -> SportActivityReport {
    SportActivityReport { sport_name: name.into(), timestamp, sets }
}

#[test]
fn test_get_sport_activity_report() {
    let mut stg = Store::new();
    assert_eq!(stg.get_sport_activity_report(1, 1, 2).unwrap_err(), StorageError::EmptyResult);

    stg.set_sport(sport("sport1", "Sport 1", "")).unwrap();
    stg.set_sport(sport("sport2", "Sport 2", "")).unwrap();
    stg.set_sport_activity(1, SportActivity { sport_key: "sport2".into(), timestamp: 1, sets: vec![1] })
        .unwrap();
    stg.set_sport_activity(
        1,
        SportActivity { sport_key: "sport1".into(), timestamp: 1, sets: vec![1, 2] },
    )
    .unwrap();
    stg.set_sport_activity(
        1,
        SportActivity { sport_key: "sport1".into(), timestamp: 3, sets: vec![1, 2, 3] },
    )
    .unwrap();

    assert_eq!(
        vec![
            report("Sport 1", 1, vec![1, 2]),
            report("Sport 2", 1, vec![1]),
            report("Sport 1", 3, vec![1, 2, 3]),
        ],
        stg.get_sport_activity_report(1, 1, 3).unwrap()
    );
}

#[test]
fn test_delete_sport_activity() {
    let mut stg = Store::new();
    stg.set_sport(sport("sport1", "Sport 1", "")).unwrap();
    stg.set_sport_activity(1, SportActivity { sport_key: "sport1".into(), timestamp: 1, sets: vec![1] })
        .unwrap();
    assert_eq!(vec![report("Sport 1", 1, vec![1])], stg.get_sport_activity_report(1, 1, 3).unwrap());

    stg.delete_sport_activity(1, 1, "sport1");
    assert_eq!(stg.get_sport_activity_report(1, 1, 2).unwrap_err(), StorageError::EmptyResult);
}

#[test]
fn test_delete_sport_with_activity() {
    let mut stg = Store::new();
    stg.set_sport(sport("sport1", "Sport 1", "")).unwrap();
    stg.set_sport_activity(1, SportActivity { sport_key: "sport1".into(), timestamp: 1, sets: vec![1] })
        .unwrap();
    assert_eq!(stg.delete_sport("sport1").unwrap_err(), StorageError::SportIsUsedViolation);
}

#[test]
fn sport_delete_succeeds_after_activities_removed() {
    let mut stg = Store::new();
    stg.set_sport(sport("sport1", "Sport 1", "")).unwrap();
    stg.set_sport_activity(1, SportActivity { sport_key: "sport1".into(), timestamp: 1, sets: vec![1] })
        .unwrap();
    stg.set_sport_activity(2, SportActivity { sport_key: "sport1".into(), timestamp: 5, sets: vec![2] })
        .unwrap();
    assert_eq!(stg.delete_sport("sport1").unwrap_err(), StorageError::SportIsUsedViolation);
    stg.delete_sport_activity(1, 1, "sport1");
    assert_eq!(stg.delete_sport("sport1").unwrap_err(), StorageError::SportIsUsedViolation);
    stg.delete_sport_activity(2, 5, "sport1");
    stg.delete_sport("sport1").unwrap();
    assert_eq!(stg.get_sport("sport1").unwrap_err(), StorageError::SportNotFound);
}

#[test]
fn set_user_settings() {
    let mut stg = Store::new();
    assert_eq!(
        stg.set_user_settings(1, UserSettings { cal_limit: 0 }).unwrap_err(),
        StorageError::UserSettingsInvalid
    );
    stg.set_user_settings(1, UserSettings { cal_limit: 100000 }).unwrap();
    assert_eq!(vec![UserSettingsBackup { user_id: 1, cal_limit: 100000 }], stg.backup(0).user_settings);
    stg.set_user_settings(1, UserSettings { cal_limit: 200000 }).unwrap();
    assert_eq!(vec![UserSettingsBackup { user_id: 1, cal_limit: 200000 }], stg.backup(0).user_settings);
}

#[test]
fn get_user_settings() {
    let mut stg = Store::new();
    assert_eq!(stg.get_user_settings(1).unwrap_err(), StorageError::UserSettingsNotFound);
    let s = UserSettings { cal_limit: 200000 };
    stg.set_user_settings(1, s).unwrap();
    assert_eq!(s, stg.get_user_settings(1).unwrap());
}

fn raw_bundles(rows: Vec<(i64, &str, Vec<BundleEntry>)>) -> Backup {
    let mut b = empty_backup();
    b.bundle = rows
        .into_iter()
        .map(|(user_id, key, data)| BundleBackup { user_id, key: key.into(), data })
        .collect();
    b
}

#[test]
fn test_get_bundle() {
    let mut stg = Store::new();
    assert_eq!(stg.get_bundle(1, "test").unwrap_err(), StorageError::BundleNotFound);

    stg.restore(&raw_bundles(vec![(1, "test", vec![bref("bundle1"), fref("food1", 1100)])]));
    assert_eq!(
        Bundle { key: "test".into(), data: vec![bref("bundle1"), fref("food1", 1100)] },
        stg.get_bundle(1, "test").unwrap()
    );
}

#[test]
fn test_get_bundle_list() {
    let mut stg = Store::new();
    assert_eq!(stg.get_bundle_list(1).unwrap_err(), StorageError::EmptyResult);

    stg.restore(&raw_bundles(vec![
        (1, "test2", vec![bref("bundle2")]),
        (1, "test", vec![bref("bundle1"), fref("food1", 1100)]),
    ]));
    assert_eq!(
        vec![
            Bundle { key: "test".into(), data: vec![bref("bundle1"), fref("food1", 1100)] },
            Bundle { key: "test2".into(), data: vec![bref("bundle2")] },
        ],
        stg.get_bundle_list(1).unwrap()
    );
}

#[test]
fn test_set_bundle() {
    let mut stg = Store::new();
    for b in [
        Bundle { key: "".into(), data: vec![] },
        Bundle { key: "key".into(), data: vec![] },
        Bundle { key: "key".into(), data: vec![fref("food1", -1000)] },
    ] {
        assert_eq!(stg.set_bundle(1, b).unwrap_err(), StorageError::BundleInvalid);
    }

    let res = stg.set_bundle(1, Bundle { key: "bndl_key".into(), data: vec![bref("bndl_key")] });
    assert_eq!(res.unwrap_err(), StorageError::BundleDepRecursive);

    let res = stg.set_bundle(1, Bundle { key: "bndl_key".into(), data: vec![bref("bndl_key2")] });
    assert_eq!(res.unwrap_err(), StorageError::BundleDepBundleNotFound);

    let res =
        stg.set_bundle(1, Bundle { key: "bndl_key".into(), data: vec![fref("food_key", 1000)] });
    assert_eq!(res.unwrap_err(), StorageError::BundleDepFoodNotFound);
    assert_eq!(stg.get_bundle(1, "bndl_key").unwrap_err(), StorageError::BundleNotFound);

    stg.set_food(food("food_key", "name", "brand", [1100, 2200, 3300, 4400], "comment")).unwrap();
    stg.set_bundle(1, Bundle { key: "bndl_key".into(), data: vec![fref("food_key", 123123)] })
        .unwrap();
    stg.set_bundle(1, Bundle { key: "bndl_key_2".into(), data: vec![fref("food_key", 123123)] })
        .unwrap();
    stg.set_bundle(
        1,
        Bundle { key: "bndl_key".into(), data: vec![fref("food_key", 123123), bref("bndl_key_2")] },
    )
    .unwrap();

    assert_eq!(
        vec![
            Bundle {
                key: "bndl_key".into(),
                data: vec![fref("food_key", 123123), bref("bndl_key_2")]
            },
            Bundle { key: "bndl_key_2".into(), data: vec![fref("food_key", 123123)] },
        ],
        stg.get_bundle_list(1).unwrap()
    );
}

#[test]
fn bundle_naming_itself_is_refused_after_valid_entries() {
    let mut stg = Store::new();
    stg.set_food(food("f", "f", "", [0, 0, 0, 0], "")).unwrap();
    let res = stg.set_bundle(1, Bundle { key: "b".into(), data: vec![fref("f", 1000), bref("b")] });
    assert_eq!(res.unwrap_err(), StorageError::BundleDepRecursive);
}

#[test]
fn test_delete_bundle() {
    let mut stg = Store::new();
    stg.set_food(food("food_key", "name", "brand", [1100, 2200, 3300, 4400], "comment")).unwrap();
    stg.set_bundle(1, Bundle { key: "bndl_key_2".into(), data: vec![fref("food_key", 123123)] })
        .unwrap();
    stg.set_bundle(
        1,
        Bundle { key: "bndl_key".into(), data: vec![fref("food_key", 123123), bref("bndl_key_2")] },
    )
    .unwrap();

    assert_eq!(stg.delete_bundle(1, "bndl_key_2").unwrap_err(), StorageError::BundleIsUsed);
    stg.delete_bundle(1, "bndl_key").unwrap();
    stg.delete_bundle(1, "bndl_key_2").unwrap();
}

fn journal(timestamp: i64, meal: Meal, key: &str, w: i64) -> Journal {
    Journal { timestamp, meal, food_key: key.into(), food_weight: w }
}

#[test]
fn test_set_journal() {
    let mut stg = Store::new();
    for j in [journal(1, Meal::Breakfast, "", 0), journal(1, Meal::Breakfast, "food", 0)] {
        assert_eq!(stg.set_journal(1, j).unwrap_err(), StorageError::JournalInvalid);
    }
    assert_eq!(
        stg.set_journal(1, journal(1, Meal::Breakfast, "food", 1000)).unwrap_err(),
        StorageError::FoodNotFound
    );

    stg.set_food(food("food", "name", "brand", [1100, 2200, 3300, 4400], "comment")).unwrap();
    stg.set_journal(1, journal(1, Meal::Breakfast, "food", 1000)).unwrap();
    let rows = stg.backup(0).journal;
    assert_eq!(
        vec![JournalBackup {
            user_id: 1,
            timestamp: 1,
            meal: Meal::Breakfast,
            food_key: "food".into(),
            food_weight: 1000
        }],
        rows
    );
    assert_eq!(0, rows[0].meal.to_u8());
}

#[test]
fn test_set_journal_bundle() {
    let mut stg = Store::new();
    stg.set_food(food("food", "name", "brand", [1100, 2200, 3300, 4400], "comment")).unwrap();
    stg.set_food(food("food2", "name", "brand", [1100, 2200, 3300, 4400], "comment")).unwrap();
    stg.set_bundle(1, Bundle { key: "bndl2".into(), data: vec![fref("food2", 123123)] }).unwrap();
    stg.set_bundle(
        1,
        Bundle { key: "bndl1".into(), data: vec![fref("food", 456456), bref("bndl2")] },
    )
    .unwrap();

    assert_eq!(
        stg.set_journal_bundle(1, 1, Meal::Breakfast, "test").unwrap_err(),
        StorageError::BundleNotFound
    );

    stg.set_journal_bundle(1, 1, Meal::Breakfast, "bndl1").unwrap();
    let rows = stg.backup(0).journal;
    assert_eq!(2, rows.len());
    assert_eq!(
        JournalBackup {
            user_id: 1,
            timestamp: 1,
            meal: Meal::Breakfast,
            food_key: "food".into(),
            food_weight: 456456
        },
        rows[0]
    );
    assert_eq!(
        JournalBackup {
            user_id: 1,
            timestamp: 1,
            meal: Meal::Breakfast,
            food_key: "food2".into(),
            food_weight: 123123
        },
        rows[1]
    );
}

#[test]
fn resolve_chain_sums_weights_per_food() {
    let mut stg = Store::new();
    stg.set_food(food("f1", "f1", "", [0, 0, 0, 0], "")).unwrap();
    stg.set_food(food("f2", "f2", "", [0, 0, 0, 0], "")).unwrap();
    stg.set_bundle(1, Bundle { key: "c".into(), data: vec![fref("f1", 100), fref("f2", 5)] })
        .unwrap();
    stg.set_bundle(1, Bundle { key: "b".into(), data: vec![fref("f1", 20), bref("c")] }).unwrap();
    stg.set_bundle(1, Bundle { key: "a".into(), data: vec![bref("b"), fref("f1", 3)] }).unwrap();
    let mut t = stg.resolve_bundle(1, "a").unwrap();
    t.sort();
    assert_eq!(vec![("f1".to_string(), 123), ("f2".to_string(), 5)], t);
}

#[test]
fn resolve_counts_shared_child_per_parent() {
    let mut stg = Store::new();
    stg.set_food(food("f", "f", "", [0, 0, 0, 0], "")).unwrap();
    stg.set_food(food("g", "g", "", [0, 0, 0, 0], "")).unwrap();
    stg.set_bundle(1, Bundle { key: "c".into(), data: vec![fref("f", 10)] }).unwrap();
    stg.set_bundle(1, Bundle { key: "p1".into(), data: vec![bref("c"), fref("g", 1)] }).unwrap();
    stg.set_bundle(1, Bundle { key: "p2".into(), data: vec![bref("c"), fref("g", 2)] }).unwrap();
    stg.set_bundle(1, Bundle { key: "r".into(), data: vec![bref("p1"), bref("p2")] }).unwrap();
    let mut t = stg.resolve_bundle(1, "r").unwrap();
    t.sort();
    assert_eq!(vec![("f".to_string(), 20), ("g".to_string(), 3)], t);
}

#[test]
fn resolve_adds_direct_and_nested_weights() {
    let mut stg = Store::new();
    stg.set_food(food("f", "f", "", [0, 0, 0, 0], "")).unwrap();
    stg.set_bundle(1, Bundle { key: "c".into(), data: vec![fref("f", 7)] }).unwrap();
    stg.set_bundle(1, Bundle { key: "p1".into(), data: vec![bref("c")] }).unwrap();
    stg.set_bundle(1, Bundle { key: "p2".into(), data: vec![bref("c")] }).unwrap();
    stg.set_bundle(
        1,
        Bundle { key: "root".into(), data: vec![bref("p1"), bref("p2"), fref("f", 100)] },
    )
    .unwrap();
    assert_eq!(vec![("f".to_string(), 114)], stg.resolve_bundle(1, "root").unwrap());
}

#[test]
fn resolve_reports_restored_cycle() {
    let mut stg = Store::new();
    stg.set_food(food("f", "f", "", [0, 0, 0, 0], "")).unwrap();
    stg.restore(&raw_bundles(vec![
        (1, "a", vec![bref("b"), fref("f", 1)]),
        (1, "b", vec![bref("a")]),
    ]));
    assert_eq!(stg.resolve_bundle(1, "a").unwrap_err(), StorageError::BundleDepRecursive);
}

#[test]
fn bundle_self_reference_wins_over_other_faults() {
    let mut stg = Store::new();
    let res = stg.set_bundle(
        1,
        Bundle { key: "bndl_key".into(), data: vec![fref("food_key", 1000), bref("bndl_key")] },
    );
    assert_eq!(res.unwrap_err(), StorageError::BundleDepRecursive);
    assert_eq!(stg.get_bundle(1, "bndl_key").unwrap_err(), StorageError::BundleNotFound);
}

#[test]
fn bundle_write_refuses_indirect_cycle() {
    let mut stg = Store::new();
    stg.set_food(food("f", "f", "", [0, 0, 0, 0], "")).unwrap();
    stg.set_bundle(1, Bundle { key: "a".into(), data: vec![fref("f", 1)] }).unwrap();
    stg.set_bundle(1, Bundle { key: "b".into(), data: vec![bref("a")] }).unwrap();
    stg.set_bundle(1, Bundle { key: "c".into(), data: vec![bref("b")] }).unwrap();
    let res = stg.set_bundle(1, Bundle { key: "a".into(), data: vec![bref("c")] });
    assert_eq!(res.unwrap_err(), StorageError::BundleDepRecursive);
    assert_eq!(
        Bundle { key: "a".into(), data: vec![fref("f", 1)] },
        stg.get_bundle(1, "a").unwrap()
    );
    stg.set_bundle(1, Bundle { key: "d".into(), data: vec![bref("c"), bref("b")] }).unwrap();
}

#[test]
fn resolve_reports_food_removed_after_definition() {
    let mut stg = Store::new();
    let mut b = empty_backup();
    b.bundle = vec![BundleBackup { user_id: 1, key: "x".into(), data: vec![fref("gone", 10)] }];
    stg.restore(&b);
    assert_eq!(stg.resolve_bundle(1, "x").unwrap_err(), StorageError::FoodNotFound);
    assert_eq!(stg.resolve_bundle(1, "y").unwrap_err(), StorageError::BundleNotFound);
}

#[test]
fn resolve_reports_overflow_as_unknown() {
    let mut stg = Store::new();
    stg.set_food(food("f", "f", "", [0, 0, 0, 0], "")).unwrap();
    stg.set_bundle(1, Bundle { key: "c".into(), data: vec![fref("f", i64::MAX)] }).unwrap();
    stg.set_bundle(1, Bundle { key: "r".into(), data: vec![fref("f", 1), bref("c")] }).unwrap();
    assert_eq!(stg.resolve_bundle(1, "r").unwrap_err(), StorageError::Unknown);
}

#[test]
fn test_delete_journal() {
    let mut stg = Store::new();
    stg.set_food(food("food", "name", "brand", [1100, 2200, 3300, 4400], "comment")).unwrap();
    stg.set_food(food("food2", "name", "brand", [1100, 2200, 3300, 4400], "comment")).unwrap();
    stg.set_journal(1, journal(1, Meal::Breakfast, "food", 1000)).unwrap();
    stg.set_journal(1, journal(1, Meal::Dinner, "food", 1000)).unwrap();
    stg.set_journal(1, journal(1, Meal::Dinner, "food2", 2000)).unwrap();
    assert_eq!(3, stg.backup(0).journal.len());

    stg.delete_journal(1, 1, Meal::Breakfast, "food");
    stg.delete_journal_meal(1, 1, Meal::Dinner);
    assert_eq!(0, stg.backup(0).journal.len());
}

fn jr(
    timestamp: i64,
    meal: Meal,
    key: &str,
    name: &str,
    brand: &str,
    w: i64,
    n: [i128; 4],
) -> JournalReport {
    JournalReport {
        timestamp,
        meal,
        food_key: key.into(),
        food_name: name.into(),
        food_brand: brand.into(),
        food_weight: w,
        cal: n[0],
        prot: n[1],
        fat: n[2],
        carb: n[3],
    }
}

#[test]
fn test_get_journal_report_and_food_avg_weight() {
    let mut stg = Store::new();
    assert_eq!(stg.get_journal_report(1, 1, 1).unwrap_err(), StorageError::EmptyResult);
    assert_eq!(0, stg.get_journal_food_avg_weight(1, "food", 1, 1));

    let n = [1000, 2000, 3000, 4000];
    stg.set_food(food("key_aaa", "aaa", "brand_aaa", n, "comment")).unwrap();
    stg.set_food(food("key_bbb", "bbb", "brand_bbb", n, "comment")).unwrap();
    stg.set_food(food("key_ccc", "ccc", "brand_ccc", n, "comment")).unwrap();
    stg.set_food(food("key_ddd", "Еда ЯЯЯ", "brand_ddd", n, "comment")).unwrap();
    stg.set_food(food("key_eee", "Еда ААА", "brand_eee", n, "comment")).unwrap();

    stg.set_journal(1, journal(1, Meal::new_str("ужин").unwrap(), "key_aaa", 100000)).unwrap();
    stg.set_journal(1, journal(1, Meal::new_str("обед").unwrap(), "key_ccc", 200000)).unwrap();
    stg.set_journal(1, journal(1, Meal::new_str("обед").unwrap(), "key_bbb", 100000)).unwrap();
    stg.set_journal(1, journal(2, Meal::new_str("завтрак").unwrap(), "key_ddd", 100000)).unwrap();
    stg.set_journal(1, journal(2, Meal::new_str("завтрак").unwrap(), "key_eee", 100000)).unwrap();

    let dinner = Meal::new_str("обед").unwrap();
    let supper = Meal::new_str("ужин").unwrap();
    let breakfast = Meal::new_str("завтрак").unwrap();
    assert_eq!(
        vec![
            jr(1, dinner, "key_bbb", "bbb", "brand_bbb", 100000, [1000, 2000, 3000, 4000]),
            jr(1, dinner, "key_ccc", "ccc", "brand_ccc", 200000, [2000, 4000, 6000, 8000]),
            jr(1, supper, "key_aaa", "aaa", "brand_aaa", 100000, [1000, 2000, 3000, 4000]),
            jr(2, breakfast, "key_eee", "Еда ААА", "brand_eee", 100000, [1000, 2000, 3000, 4000]),
            jr(2, breakfast, "key_ddd", "Еда ЯЯЯ", "brand_ddd", 100000, [1000, 2000, 3000, 4000]),
        ],
        stg.get_journal_report(1, 1, 2).unwrap()
    );

    assert_eq!(100000, stg.get_journal_food_avg_weight(1, "key_aaa", 1, 2));
}

#[test]
fn journal_report_scales_nutrients_and_rounds_down() {
    let mut stg = Store::new();
    stg.set_food(food("k", "n", "", [333, 1, 0, 250], "")).unwrap();
    stg.set_journal(1, journal(5, Meal::Supper, "k", 150000)).unwrap();
    assert_eq!(
        vec![jr(5, Meal::Supper, "k", "n", "", 150000, [499, 1, 0, 375])],
        stg.get_journal_report(1, 0, 10).unwrap()
    );
}

#[test]
fn average_weight_rounds_down() {
    let mut stg = Store::new();
    stg.set_food(food("k", "n", "", [0, 0, 0, 0], "")).unwrap();
    stg.set_journal(1, journal(1, Meal::Breakfast, "k", 1000)).unwrap();
    stg.set_journal(1, journal(2, Meal::Breakfast, "k", 2001)).unwrap();
    stg.set_journal(1, journal(3, Meal::Breakfast, "k", 4000)).unwrap();
    assert_eq!(1500, stg.get_journal_food_avg_weight(1, "k", 1, 2));
    assert_eq!(2333, stg.get_journal_food_avg_weight(1, "k", 0, 9));
}

fn sample_backup() -> Backup {
    let fb = |key: &str, name: &str, brand: &str, v: [i64; 4], comment: &str| -> FoodBackup {
        food(key, name, brand, v, comment)
    };
    let sb = |key: &str, name: &str, comment: &str| -> SportBackup { sport(key, name, comment) };
    Backup {
        timestamp: 1,
        weight: vec![
            WeightBackup { timestamp: 1, user_id: 1, value: 1100 },
            WeightBackup { timestamp: 2, user_id: 1, value: 2200 },
            WeightBackup { timestamp: 3, user_id: 1, value: 3300 },
            WeightBackup { timestamp: 4, user_id: 2, value: 4400 },
        ],
        food: vec![
            fb("key1", "Food 1", "Brand 1", [1100, 2200, 3300, 4400], "Comment1"),
            fb("key2", "Food 2", "Brand2", [5500, 6600, 7700, 8800], "Comment2"),
            fb("key3", "Еда 3", "Брэнд 3", [10100, 20200, 30300, 40400], "Комментарий 3"),
            fb("key4", "Еда 4", "Брэнд 4", [100100, 200200, 300300, 400400], "Комментарий 4"),
        ],
        user_settings: vec![
            UserSettingsBackup { user_id: 1, cal_limit: 1000 },
            UserSettingsBackup { user_id: 2, cal_limit: 2000 },
        ],
        bundle: vec![
            BundleBackup { user_id: 1, key: "bundle1".into(), data: vec![fref("key1", 100000)] },
            BundleBackup {
                user_id: 1,
                key: "bundle2".into(),
                data: vec![fref("key2", 100000), bref("bundle1")],
            },
        ],
        journal: vec![
            JournalBackup {
                user_id: 1,
                timestamp: 1,
                meal: Meal::new(1).unwrap(),
                food_key: "key1".into(),
                food_weight: 100000,
            },
            JournalBackup {
                user_id: 1,
                timestamp: 1,
                meal: Meal::new(2).unwrap(),
                food_key: "key2".into(),
                food_weight: 200000,
            },
        ],
        sport: vec![
            sb("sport1", "Sport 1", "Sport 1"),
            sb("sport2", "Sport 2", "Sport 2"),
            sb("sport3", "Sport 3", "Sport 3"),
        ],
        sport_activity: vec![
            SportActivityBackup {
                user_id: 1,
                sport_key: "sport1".into(),
                timestamp: 1,
                sets: vec![1, 2, 3],
            },
            SportActivityBackup {
                user_id: 1,
                sport_key: "sport2".into(),
                timestamp: 1,
                sets: vec![4, 5, 6],
            },
            SportActivityBackup { user_id: 2, sport_key: "sport3".into(), timestamp: 2, sets: vec![10] },
        ],
    }
}

#[test]
fn test_backup_restore() {
    let backup = sample_backup();
    let mut stg = Store::new();
    stg.restore(&backup);

    assert_eq!(
        vec![weight(1, 1100), weight(2, 2200), weight(3, 3300)],
        stg.get_weight_list(1, 0, 10).unwrap()
    );
    assert_eq!(vec![weight(4, 4400)], stg.get_weight_list(2, 0, 10).unwrap());
    assert_eq!(backup.food, stg.get_food_list().unwrap());
    assert_eq!(1000, stg.get_user_settings(1).unwrap().cal_limit);
    assert_eq!(2000, stg.get_user_settings(2).unwrap().cal_limit);
    assert_eq!(
        vec![
            Bundle { key: "bundle1".into(), data: vec![fref("key1", 100000)] },
            Bundle { key: "bundle2".into(), data: vec![fref("key2", 100000), bref("bundle1")] },
        ],
        stg.get_bundle_list(1).unwrap()
    );
    assert_eq!(
        vec![
            jr(1, Meal::new_str("до обеда").unwrap(), "key1", "Food 1", "Brand 1", 100000, [
                1100, 2200, 3300, 4400
            ]),
            jr(1, Meal::Dinner, "key2", "Food 2", "Brand2", 200000, [11000, 13200, 15400, 17600]),
        ],
        stg.get_journal_report(1, 1, 1).unwrap()
    );
    assert_eq!(backup.sport, stg.get_sport_list().unwrap());
    assert_eq!(
        vec![report("Sport 1", 1, vec![1, 2, 3]), report("Sport 2", 1, vec![4, 5, 6])],
        stg.get_sport_activity_report(1, 1, 2).unwrap()
    );
    assert_eq!(vec![report("Sport 3", 2, vec![10])], stg.get_sport_activity_report(2, 1, 2).unwrap());

    let backup2 = stg.backup(1);
    assert_eq!(backup.food, backup2.food);
    assert_eq!(backup.weight, backup2.weight);
    assert_eq!(backup.user_settings, backup2.user_settings);
    assert_eq!(backup.bundle, backup2.bundle);
    assert_eq!(backup.journal, backup2.journal);
    assert_eq!(backup.sport, backup2.sport);
    assert_eq!(backup.sport_activity, backup2.sport_activity);
}

#[test]
fn backup_then_restore_into_empty_store_reproduces_every_family() {
    let mut src = Store::new();
    src.restore(&sample_backup());
    src.set_weight(3, weight(9, 9000)).unwrap();
    let snap = src.backup(42);
    assert_eq!(42, snap.timestamp);
    let mut dst = Store::new();
    dst.restore(&snap);
    assert_eq!(snap, dst.backup(42));
}

#[test]
fn restore_merges_without_wiping() {
    let mut stg = Store::new();
    stg.set_sport(sport("own", "Own", "")).unwrap();
    stg.set_weight(1, weight(1, 5000)).unwrap();
    stg.restore(&sample_backup());
    assert_eq!(sport("own", "Own", ""), stg.get_sport("own").unwrap());
    assert_eq!(weight(1, 1100), stg.get_weight_list(1, 1, 1).unwrap()[0]);
}

#[test]
fn backup_lists_rows_by_key() {
    let mut stg = Store::new();
    stg.set_weight(2, weight(1, 1000)).unwrap();
    stg.set_weight(1, weight(5, 2000)).unwrap();
    stg.set_weight(1, weight(3, 3000)).unwrap();
    stg.set_food(food("b", "a", "", [0, 0, 0, 0], "")).unwrap();
    stg.set_food(food("a", "z", "", [0, 0, 0, 0], "")).unwrap();
    let snap = stg.backup(7);
    assert_eq!(
        vec![
            WeightBackup { user_id: 1, timestamp: 3, value: 3000 },
            WeightBackup { user_id: 1, timestamp: 5, value: 2000 },
            WeightBackup { user_id: 2, timestamp: 1, value: 1000 },
        ],
        snap.weight
    );
    assert_eq!(vec!["a".to_string(), "b".to_string()], snap.food.iter().map(|f| f.key.clone()).collect::<Vec<_>>());
}
