use nutrition_journal::migration::{after_step, next_step, plan, SchemaStep, System, LATEST_VERSION};

fn apply_all(mut version: i64) -> (i64, usize) {
    let mut applied = 0;
    for step in plan(version) {
        version = after_step(version, step, true);
        applied += 1;
    }
    (version, applied)
}

#[test]
fn test_migrations_apply() {
    let (version, applied) = apply_all(0);
    assert_eq!(7, version);
    assert_eq!(7, applied);
    let system = System { migration_id: version as u32 };
    assert_eq!(7, system.migration_id);
}

#[test]
fn migrations_are_idempotent() {
    let (v1, _) = apply_all(0);
    let (v2, applied) = apply_all(v1);
    assert_eq!(v1, v2);
    assert_eq!(0, applied);
}

#[test]
fn migrations_resume_after_a_failed_step() {
    let steps = plan(3);
    assert_eq!(
        vec![
            SchemaStep::SportActivity,
            SchemaStep::UserSettings,
            SchemaStep::Bundle,
            SchemaStep::Journal
        ],
        steps
    );
    assert_eq!(SchemaStep::Sport, plan(2)[0]);
    let v = after_step(4, SchemaStep::UserSettings, false);
    assert_eq!(4, v);
    assert_eq!(Some(SchemaStep::UserSettings), next_step(v));
}

#[test]
fn plan_of_newer_store_is_empty() {
    assert!(plan(LATEST_VERSION).is_empty());
    assert!(plan(100).is_empty());
    assert_eq!(None, next_step(7));
    assert_eq!(Some(SchemaStep::InitialVersion), next_step(-5));
    assert_eq!(7, plan(-5).len());
}
