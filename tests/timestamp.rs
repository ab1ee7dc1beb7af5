use nutrition_journal::timestamp::Timestamp;

#[test]
fn test_timezone() {
    let ts = Timestamp::from_unix_millis(75600000).unwrap();
    assert_eq!("01.01.1970", ts.format("%d.%m.%Y").unwrap());
    assert_eq!(
        "02.01.1970",
        ts.with_timezone("Europe/Moscow").unwrap().format("%d.%m.%Y").unwrap()
    );
}

#[test]
fn test_parse_date() {
    assert_eq!(
        1734728400000,
        Timestamp::parse_date("21.12.2024", "%d.%m.%Y", "Europe/Moscow").unwrap().unix_millis()
    );
    assert_eq!(
        1734739200000,
        Timestamp::parse_date("21.12.2024", "%d.%m.%Y", "UTC").unwrap().unix_millis()
    );
}

#[test]
fn test_sub() {
    let ts1 = Timestamp::parse_date("21.12.2024", "%d.%m.%Y", "Europe/Moscow").unwrap();
    let ts2 = ts1.sub(20 * 86400000).unwrap();
    assert_eq!(ts1.unix_millis(), 1734728400000);
    assert_eq!(ts2.unix_millis(), 1733000400000);
}

#[test]
fn start_of_day_in_own_offset() {
    let ts = Timestamp::from_unix_millis(75600000).unwrap();
    assert_eq!(0, ts.start_of_day().unix_millis());
    let msk = ts.with_timezone("Europe/Moscow").unwrap();
    assert_eq!(75600000, msk.start_of_day().unix_millis());
    let before_epoch = Timestamp::from_unix_millis(-1).unwrap();
    assert_eq!(-86400000, before_epoch.start_of_day().unix_millis());
}

#[test]
fn refused_inputs_give_none() {
    assert!(Timestamp::parse_date("31.02.2024", "%d.%m.%Y", "UTC").is_none());
    assert!(Timestamp::parse_date("21.12.2024", "%d.%m.%Y", "Nowhere/City").is_none());
    assert!(Timestamp::from_unix_millis(0).unwrap().with_timezone("Nowhere/City").is_none());
    assert!(Timestamp::from_unix_millis(i64::MAX).is_none());
    assert!(Timestamp::from_unix_millis(0).unwrap().format("%Q").is_none());
}
