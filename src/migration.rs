use vstd::prelude::*;

verus! {

/// The schema changes, in the order they ship. A step is applied at most once, inside one
/// transaction together with writing its version into the schema counter.
#[derive(Debug, Clone, Copy, PartialEq, Eq, Structural)]
pub enum SchemaStep {
    InitialVersion,
    WeightAndFood,
    Sport,
    SportActivity,
    UserSettings,
    Bundle,
    Journal,
}

/// The schema counter record: the version of the last applied step.
#[derive(Debug, Clone, Copy, PartialEq, Eq, Structural)]
pub struct System {
    pub migration_id: u32,
}

/// The version of the newest step.
pub const LATEST_VERSION: i64 = 7;

/// The version that applying `s` writes into the schema counter.
pub open spec fn step_version(s: SchemaStep) -> i64 {
    match s {
        SchemaStep::InitialVersion => 1,
        SchemaStep::WeightAndFood => 2,
        SchemaStep::Sport => 3,
        SchemaStep::SportActivity => 4,
        SchemaStep::UserSettings => 5,
        SchemaStep::Bundle => 6,
        SchemaStep::Journal => 7,
    }
}

/// How many steps a store at schema `version` still lacks.
pub open spec fn pending_count(version: i64) -> int {
    if version >= LATEST_VERSION {
        0
    } else if version < 0 {
        LATEST_VERSION as int
    } else {
        LATEST_VERSION - version
    }
}

/// The first version that a store at schema `version` still lacks.
pub open spec fn first_pending(version: i64) -> int {
    if version < 0 {
        1
    } else {
        version + 1
    }
}

/// The schema version once every pending step of `version` is applied.
pub open spec fn applied(version: i64) -> i64 {
    if version < LATEST_VERSION {
        LATEST_VERSION
    } else {
        version
    }
}

impl SchemaStep {
    pub fn version(&self) -> (r: i64)
        ensures
            r == step_version(*self),
    {
        match self {
            SchemaStep::InitialVersion => 1,
            SchemaStep::WeightAndFood => 2,
            SchemaStep::Sport => 3,
            SchemaStep::SportActivity => 4,
            SchemaStep::UserSettings => 5,
            SchemaStep::Bundle => 6,
            SchemaStep::Journal => 7,
        }
    }
}

/// The next step to apply to a store at schema `version`: the oldest step whose version is
/// greater, or none when the store is up to date.
pub fn next_step(version: i64) -> (r: Option<SchemaStep>)
    ensures
        version < LATEST_VERSION <==> r is Some,
        r matches Some(s) ==> step_version(s) > version && (step_version(s) == 1 || step_version(s)
            - 1 <= version),
{
    if version < 1 {
        Some(SchemaStep::InitialVersion)
    } else if version < 2 {
        Some(SchemaStep::WeightAndFood)
    } else if version < 3 {
        Some(SchemaStep::Sport)
    } else if version < 4 {
        Some(SchemaStep::SportActivity)
    } else if version < 5 {
        Some(SchemaStep::UserSettings)
    } else if version < 6 {
        Some(SchemaStep::Bundle)
    } else if version < 7 {
        Some(SchemaStep::Journal)
    } else {
        None
    }
}

/// The schema counter after an attempt to apply `step` to a store at `version`: the step's
/// version when its transaction committed, else unchanged.
pub fn after_step(version: i64, step: SchemaStep, committed: bool) -> (r: i64)
    ensures
        committed ==> r == step_version(step),
        !committed ==> r == version,
{
    if committed {
        step.version()
    } else {
        version
    }
}

/// The steps to apply to a store at schema `version`, oldest first: each step whose version
/// is greater than `version`. Applying them in turn, each in its own transaction, leaves the
/// counter at `applied(version)`.
pub fn plan(version: i64) -> (r: Vec<SchemaStep>)
    ensures
        r@.len() == pending_count(version),
        forall|i: int| 0 <= i < r@.len() ==> step_version(#[trigger] r@[i]) == first_pending(version) + i,
        r@.len() > 0 ==> step_version(r@.last()) == applied(version),
{
    let mut r: Vec<SchemaStep> = Vec::new();
    let mut v = version;
    loop
        invariant
            r@.len() == if v == version {
                0
            } else {
                v - first_pending(version) + 1
            },
            v == version || (v >= 1 && v <= LATEST_VERSION && v >= first_pending(version)),
            forall|i: int| 0 <= i < r@.len() ==> step_version(#[trigger] r@[i]) == first_pending(version) + i,
            r@.len() > 0 ==> step_version(r@.last()) == v,
            v >= version,
        decreases pending_count(v),
    {
        match next_step(v) {
            Some(s) => {
                r.push(s);
                v = after_step(v, s, true);
            },
            None => {
                return r;
            },
        }
    }
}

/// Applying migrations is idempotent: once every pending step is applied, no step is
/// pending, so applying again changes no structure and leaves the counter as it is.
pub proof fn law_migration_idempotent(version: i64)
    ensures
        pending_count(applied(version)) == 0,
        applied(applied(version)) == applied(version),
{
}

} // verus!
