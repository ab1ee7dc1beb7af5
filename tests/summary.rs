use nutrition_journal::model::{JournalReport, Meal};
use nutrition_journal::summary::day_totals;

fn row(meal: Meal, key: &str, n: [i128; 4]) -> JournalReport {
    JournalReport {
        timestamp: 1,
        meal,
        food_key: key.into(),
        food_name: key.into(),
        food_brand: "".into(),
        food_weight: 100000,
        cal: n[0],
        prot: n[1],
        fat: n[2],
        carb: n[3],
    }
}

#[test]
fn day_totals_group_consecutive_meals() {
    let rows = vec![
        row(Meal::Dinner, "a", [1000, 2000, 3000, 4000]),
        row(Meal::Dinner, "b", [2000, 4000, 6000, 8000]),
        row(Meal::Supper, "c", [1000, 2000, 3000, 4000]),
    ];
    let t = day_totals(&rows).unwrap();
    assert_eq!((4000, 8000, 12000, 16000), (t.cal, t.prot, t.fat, t.carb));
    assert_eq!(2, t.meals.len());
    assert_eq!(Meal::Dinner, t.meals[0].meal);
    assert_eq!(2, t.meals[0].rows);
    assert_eq!((3000, 6000, 9000, 12000), (t.meals[0].cal, t.meals[0].prot, t.meals[0].fat, t.meals[0].carb));
    assert_eq!(Meal::Supper, t.meals[1].meal);
    assert_eq!(1, t.meals[1].rows);
    assert_eq!(1000, t.meals[1].cal);
}

#[test]
fn day_totals_of_no_rows_are_zero() {
    let t = day_totals(&vec![]).unwrap();
    assert!(t.meals.is_empty());
    assert_eq!((0, 0, 0, 0), (t.cal, t.prot, t.fat, t.carb));
}

#[test]
fn day_totals_refuse_overflow() {
    let rows = vec![
        row(Meal::Breakfast, "a", [i128::MAX, 0, 0, 0]),
        row(Meal::Supper, "b", [1, 0, 0, 0]),
    ];
    assert!(day_totals(&rows).is_none());
}
