use nutrition_journal::calc::calorie_norms;

#[test]
fn calorie_norms_for_a_man() {
    let (basal, norms) = calorie_norms("m", 80000, 180000, 30000).unwrap();
    assert_eq!(1780, basal);
    assert_eq!(vec![2136, 2447, 2759, 3070, 3382], norms);
}

#[test]
fn calorie_norms_for_a_woman() {
    let (basal, norms) = calorie_norms("f", 60000, 165000, 25000).unwrap();
    assert_eq!(1345, basal);
    assert_eq!(vec![1614, 1849, 2085, 2320, 2555], norms);
}

#[test]
fn calorie_norms_refuse_bad_input() {
    assert!(calorie_norms("x", 80000, 180000, 30000).is_none());
    assert!(calorie_norms("m", 0, 180000, 30000).is_none());
    assert!(calorie_norms("f", 60000, -1, 25000).is_none());
    assert!(calorie_norms("f", 60000, 165000, 0).is_none());
}
