use nutrition_journal::model::{
    Bundle, BundleEntry, Food, Journal, Meal, Sport, SportActivity, UserSettings, Weight,
};

fn food(key: &str, name: &str, brand: &str, v: [i64; 4], comment: &str) -> Food {
    Food {
        key: key.into(),
        name: name.into(),
        brand: brand.into(),
        cal100: v[0],
        prot100: v[1],
        fat100: v[2],
        carb100: v[3],
        comment: comment.into(),
    }
}

#[test]
fn test_validate_food() {
    for t in vec![
        (food("", "", "brand", [-1000, -1000, -1000, -1000], ""), false),
        (food("key", "", "brand", [-1000, -1000, -1000, -1000], ""), false),
        (food("key", "name", "brand", [-1000, -1000, -1000, -1000], ""), false),
        (food("key", "name", "brand", [1000, -1000, -1000, -1000], ""), false),
        (food("key", "name", "brand", [1000, 1000, -1000, -1000], ""), false),
        (food("key", "name", "brand", [1000, 1000, 1000, -1000], ""), false),
        (food("key", "name", "brand", [1000, 1000, 1000, 1000], ""), true),
    ] {
        assert_eq!(t.0.validate(), t.1);
    }
}

#[test]
fn test_validate_weight() {
    assert!(!Weight { timestamp: 0, value: 0 }.validate());
    assert!(Weight { timestamp: 0, value: 1000 }.validate());
}

#[test]
fn test_validate_journal() {
    for t in [
        (
            Journal { timestamp: 0, meal: Meal::Breakfast, food_key: "".into(), food_weight: 0 },
            false,
        ),
        (
            Journal { timestamp: 0, meal: Meal::Breakfast, food_key: "key".into(), food_weight: 0 },
            false,
        ),
        (
            Journal {
                timestamp: 0,
                meal: Meal::Breakfast,
                food_key: "key".into(),
                food_weight: 1000,
            },
            true,
        ),
    ] {
        assert_eq!(t.0.validate(), t.1);
    }
}

#[test]
fn test_validate_user_settings() {
    assert!(!UserSettings { cal_limit: 0 }.validate());
    assert!(UserSettings { cal_limit: 1000 }.validate());
}

#[test]
fn test_validate_bundle() {
    for t in vec![
        (Bundle { key: "".into(), data: vec![] }, false),
        (Bundle { key: "key".into(), data: vec![] }, false),
        (Bundle { key: "key".into(), data: vec![] }, false),
        (
            Bundle {
                key: "key".into(),
                data: vec![
                    BundleEntry::Bundle { key: "bundle".into() },
                    BundleEntry::Food { key: "food".into(), weight: -1000 },
                ],
            },
            false,
        ),
        (
            Bundle {
                key: "key".into(),
                data: vec![
                    BundleEntry::Bundle { key: "bundle".into() },
                    BundleEntry::Food { key: "food".into(), weight: 1000 },
                ],
            },
            true,
        ),
    ] {
        assert_eq!(t.0.validate(), t.1);
    }
}

#[test]
fn validate_bundle_refuses_repeated_key() {
    let b = Bundle {
        key: "key".into(),
        data: vec![
            BundleEntry::Food { key: "food".into(), weight: 1000 },
            BundleEntry::Bundle { key: "food".into() },
        ],
    };
    assert!(!b.validate());
}

#[test]
fn test_validate_sport() {
    assert!(!Sport { name: "".into(), key: "".into(), comment: "".into() }.validate());
    assert!(!Sport { name: "sport".into(), key: "".into(), comment: "".into() }.validate());
    assert!(Sport { name: "sport".into(), key: "key".into(), comment: "".into() }.validate());
}

#[test]
fn test_validate_sport_activity() {
    assert!(!SportActivity { sport_key: "".into(), sets: vec![], timestamp: 0 }.validate());
    assert!(!SportActivity { sport_key: "key".into(), sets: vec![], timestamp: 0 }.validate());
    assert!(SportActivity { sport_key: "key".into(), sets: vec![1, 2], timestamp: 0 }.validate());
}

#[test]
fn meal_ordinals_round_trip() {
    for v in 0u8..6 {
        assert_eq!(Meal::new(v).unwrap().to_u8(), v);
    }
    assert_eq!(Meal::new(6), None);
}

#[test]
fn meal_names() {
    assert_eq!(Meal::Breakfast.name(), "Завтрак");
    assert_eq!(Meal::FirstSnack.name(), "До обеда");
    assert_eq!(Meal::Dinner.name(), "Обед");
    assert_eq!(Meal::SecondSnack.name(), "Полдник");
    assert_eq!(Meal::ThirdSnack.name(), "До ужина");
    assert_eq!(Meal::Supper.name(), "Ужин");
}

#[test]
fn meal_from_name_ignores_case() {
    assert_eq!(Meal::new_str("ужин"), Some(Meal::Supper));
    assert_eq!(Meal::new_str("ОБЕД"), Some(Meal::Dinner));
    assert_eq!(Meal::new_str("До Обеда"), Some(Meal::FirstSnack));
    assert_eq!(Meal::new_str("lunch"), None);
}
