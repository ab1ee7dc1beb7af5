use crate::backup::{
    Backup, BundleBackup, JournalBackup, SportActivityBackup, UserSettingsBackup, WeightBackup,
};
use crate::error::StorageError;
use crate::search::{contains_folded, has_infix, upper_of, uppercase};
use crate::quantity::{floor_div, scale, scaled_amount};
use vstd::arithmetic::div_mod::{lemma_div_is_ordered, lemma_div_multiples_vanish};
use crate::model::{
    Bundle, BundleEntry, Food, Journal, JournalReport, Meal, Sport, SportActivity,
    SportActivityReport, UserSettings, Weight, clone_entries, clone_sets, meal_ordinal,
};
use crate::order::{
    KeyOrder, Ranked, compare_text, sort_by_key_order, sorted_by_key, lemma_map_multiset, lemma_text_cmp_facts, lemma_text_cmp_trans, lemma_text_pair_total, lemma_text_pair_trans, sort_by_rank,
    sorted_by_rank, text_eq, text_pair_before, text_pair_le,
};
use vstd::prelude::*;

verus! {

/// What a store holds: one sequence of rows per entity family.
pub struct StoreView {
    pub weight: Seq<WeightBackup>,
    pub food: Seq<Food>,
    pub user_settings: Seq<UserSettingsBackup>,
    pub bundle: Seq<(i64, Seq<char>, Seq<BundleEntry>)>,
    pub journal: Seq<JournalBackup>,
    pub sport: Seq<Sport>,
    pub sport_activity: Seq<(i64, Seq<char>, i64, Seq<i64>)>,
}

pub open spec fn food_keys_unique(s: Seq<Food>) -> bool {
    forall|i: int, j: int| 0 <= i < j < s.len() ==> #[trigger] s[i].key@ != #[trigger] s[j].key@
}

pub open spec fn sport_keys_unique(s: Seq<Sport>) -> bool {
    forall|i: int, j: int| 0 <= i < j < s.len() ==> #[trigger] s[i].key@ != #[trigger] s[j].key@
}

pub open spec fn weight_keys_unique(s: Seq<WeightBackup>) -> bool {
    forall|i: int, j: int|
        0 <= i < j < s.len() ==> (#[trigger] s[i].user_id, s[i].timestamp) != (
        #[trigger] s[j].user_id,
        s[j].timestamp,
    )
}

pub open spec fn settings_keys_unique(s: Seq<UserSettingsBackup>) -> bool {
    forall|i: int, j: int| 0 <= i < j < s.len() ==> #[trigger] s[i].user_id != #[trigger] s[j].user_id
}

pub open spec fn bundle_keys_unique(s: Seq<(i64, Seq<char>, Seq<BundleEntry>)>) -> bool {
    forall|i: int, j: int|
        0 <= i < j < s.len() ==> (#[trigger] s[i].0, s[i].1) != (#[trigger] s[j].0, s[j].1)
}

/// The key of a journal row: owner, time, meal slot and food.
pub open spec fn journal_key(j: JournalBackup) -> (i64, i64, Meal, Seq<char>) {
    (j.user_id, j.timestamp, j.meal, j.food_key@)
}

pub open spec fn journal_keys_unique(s: Seq<JournalBackup>) -> bool {
    forall|i: int, j: int|
        0 <= i < j < s.len() ==> journal_key(#[trigger] s[i]) != journal_key(#[trigger] s[j])
}

pub open spec fn activity_keys_unique(s: Seq<(i64, Seq<char>, i64, Seq<i64>)>) -> bool {
    forall|i: int, j: int|
        0 <= i < j < s.len() ==> (#[trigger] s[i].0, s[i].1, s[i].2) != (
        #[trigger] s[j].0,
        s[j].1,
        s[j].2,
    )
}

impl StoreView {
    /// Every family holds at most one row per natural key.
    pub open spec fn wf(&self) -> bool {
        &&& weight_keys_unique(self.weight)
        &&& food_keys_unique(self.food)
        &&& settings_keys_unique(self.user_settings)
        &&& bundle_keys_unique(self.bundle)
        &&& journal_keys_unique(self.journal)
        &&& sport_keys_unique(self.sport)
        &&& activity_keys_unique(self.sport_activity)
    }

    pub open spec fn has_food(&self, key: Seq<char>) -> bool {
        exists|i: int| 0 <= i < self.food.len() && #[trigger] self.food[i].key@ == key
    }

    pub open spec fn has_sport(&self, key: Seq<char>) -> bool {
        exists|i: int| 0 <= i < self.sport.len() && #[trigger] self.sport[i].key@ == key
    }

    pub open spec fn has_bundle(&self, user_id: i64, key: Seq<char>) -> bool {
        exists|i: int|
            0 <= i < self.bundle.len() && #[trigger] self.bundle[i].0 == user_id
                && self.bundle[i].1 == key
    }

    /// Some bundle, of any user, holds `key` as a food entry.
    pub open spec fn food_in_bundle(&self, key: Seq<char>) -> bool {
        exists|i: int, j: int|
            0 <= i < self.bundle.len() && 0 <= j < self.bundle[i].2.len() && (
            #[trigger] self.bundle[i].2[j] matches BundleEntry::Food { key: k, .. } && k@ == key)
    }

    pub open spec fn food_in_journal(&self, key: Seq<char>) -> bool {
        exists|i: int| 0 <= i < self.journal.len() && #[trigger] self.journal[i].food_key@ == key
    }

    pub open spec fn sport_in_activity(&self, key: Seq<char>) -> bool {
        exists|i: int|
            0 <= i < self.sport_activity.len() && #[trigger] self.sport_activity[i].1 == key
    }

    /// Another bundle of the same user holds `key` as a nested bundle.
    pub open spec fn bundle_in_bundle(&self, user_id: i64, key: Seq<char>) -> bool {
        exists|i: int, j: int|
            0 <= i < self.bundle.len() && self.bundle[i].0 == user_id && 0 <= j
                < self.bundle[i].2.len() && (#[trigger] self.bundle[i].2[j] matches BundleEntry::Bundle {
                key: k,
            } && k@ == key)
    }
}

/// The weight samples of `user_id` from `from` to `to`, both included, in stored order.
pub open spec fn weight_rows(s: Seq<WeightBackup>, user_id: i64, from: i64, to: i64) -> Seq<Weight>
    decreases s.len(),
{
    if s.len() == 0 {
        Seq::empty()
    } else {
        let rest = weight_rows(s.drop_last(), user_id, from, to);
        let w = s.last();
        if w.user_id == user_id && from <= w.timestamp <= to {
            rest.push(Weight { timestamp: w.timestamp, value: w.value })
        } else {
            rest
        }
    }
}

/// Rows of each family that share a natural key.
pub open spec fn same_weight() -> spec_fn(WeightBackup, WeightBackup) -> bool {
    |a: WeightBackup, b: WeightBackup| a.user_id == b.user_id && a.timestamp == b.timestamp
}

pub open spec fn same_food() -> spec_fn(Food, Food) -> bool {
    |a: Food, b: Food| a.key@ == b.key@
}

pub open spec fn same_settings() -> spec_fn(UserSettingsBackup, UserSettingsBackup) -> bool {
    |a: UserSettingsBackup, b: UserSettingsBackup| a.user_id == b.user_id
}

pub open spec fn same_bundle() -> spec_fn(
    (i64, Seq<char>, Seq<BundleEntry>),
    (i64, Seq<char>, Seq<BundleEntry>),
) -> bool {
    |a: (i64, Seq<char>, Seq<BundleEntry>), b: (i64, Seq<char>, Seq<BundleEntry>)|
        a.0 == b.0 && a.1 == b.1
}

pub open spec fn same_journal() -> spec_fn(JournalBackup, JournalBackup) -> bool {
    |a: JournalBackup, b: JournalBackup| journal_key(a) == journal_key(b)
}

pub open spec fn same_sport() -> spec_fn(Sport, Sport) -> bool {
    |a: Sport, b: Sport| a.key@ == b.key@
}

pub open spec fn same_activity() -> spec_fn(
    (i64, Seq<char>, i64, Seq<i64>),
    (i64, Seq<char>, i64, Seq<i64>),
) -> bool {
    |a: (i64, Seq<char>, i64, Seq<i64>), b: (i64, Seq<char>, i64, Seq<i64>)|
        a.0 == b.0 && a.1 == b.1 && a.2 == b.2
}

/// `s` with `x` written under its key: in place of the row with the same key, or appended.
pub open spec fn upsert_with<A>(s: Seq<A>, x: A, same: spec_fn(A, A) -> bool) -> Seq<A> {
    if exists|i: int| 0 <= i < s.len() && same(#[trigger] s[i], x) {
        s.update(choose|i: int| 0 <= i < s.len() && same(#[trigger] s[i], x), x)
    } else {
        s.push(x)
    }
}

/// `s` with every row of `xs` written in turn.
pub open spec fn upsert_all<A>(s: Seq<A>, xs: Seq<A>, same: spec_fn(A, A) -> bool) -> Seq<A>
    decreases xs.len(),
{
    if xs.len() == 0 {
        s
    } else {
        upsert_with(upsert_all(s, xs.drop_last(), same), xs.last(), same)
    }
}

/// No two rows of `s` share a key.
pub open spec fn unique_by<A>(s: Seq<A>, same: spec_fn(A, A) -> bool) -> bool {
    forall|i: int, j: int| 0 <= i < j < s.len() ==> !same(#[trigger] s[i], #[trigger] s[j])
}

/// `same` relates rows that share a key: it is symmetric and transitive.
pub open spec fn key_relation<A>(same: spec_fn(A, A) -> bool) -> bool {
    &&& forall|a: A, b: A| #[trigger] same(a, b) ==> same(b, a)
    &&& forall|a: A, b: A, c: A| #[trigger] same(a, b) && #[trigger] same(b, c) ==> same(a, c)
}

proof fn lemma_upserted_is<A>(old: Seq<A>, new: Seq<A>, x: A, same: spec_fn(A, A) -> bool)
    requires
        upserted(old, new, x, same),
        unique_by(old, same),
        key_relation(same),
    ensures
        new == upsert_with(old, x, same),
{
    if exists|i: int| 0 <= i < old.len() && same(#[trigger] old[i], x) {
        let i = choose|i: int| 0 <= i < old.len() && same(#[trigger] old[i], x) && new == old.update(i, x);
        let c = choose|i: int| 0 <= i < old.len() && same(#[trigger] old[i], x);
        if i != c {
            assert(same(x, old[c]));
            if i < c {
                assert(!same(old[i], old[c]));
            } else {
                assert(!same(old[c], old[i]));
                assert(same(old[c], x));
            }
        }
    }
}

proof fn lemma_upsert_with_upserted<A>(s: Seq<A>, x: A, same: spec_fn(A, A) -> bool)
    ensures
        upserted(s, upsert_with(s, x, same), x, same),
{
}

/// Writing `x` keeps the keys of `s` unique.
proof fn lemma_upsert_unique<A>(s: Seq<A>, x: A, same: spec_fn(A, A) -> bool)
    requires
        unique_by(s, same),
        key_relation(same),
    ensures
        unique_by(upsert_with(s, x, same), same),
{
    let n = upsert_with(s, x, same);
    if exists|i: int| 0 <= i < s.len() && same(#[trigger] s[i], x) {
        let c = choose|i: int| 0 <= i < s.len() && same(#[trigger] s[i], x);
        assert forall|i: int, j: int| 0 <= i < j < n.len() implies !same(#[trigger] n[i], #[trigger] n[j]) by {
            if i == c {
                assert(!same(s[c], s[j]));
                if same(x, s[j]) {
                    assert(same(s[c], s[j]));
                }
            } else if j == c {
                assert(!same(s[i], s[c]));
                if same(s[i], x) {
                    assert(same(x, s[c]));
                    assert(same(s[i], s[c]));
                }
            } else {
                assert(n[i] == s[i] && n[j] == s[j]);
            }
        }
    } else {
        assert forall|i: int, j: int| 0 <= i < j < n.len() implies !same(#[trigger] n[i], #[trigger] n[j]) by {
            if j == s.len() {
                assert(n[i] == s[i]);
            } else {
                assert(n[i] == s[i] && n[j] == s[j]);
            }
        }
    }
}

/// Writing rows with pairwise different keys into an empty table gives back those rows.
pub proof fn lemma_upsert_all_into_empty<A>(xs: Seq<A>, same: spec_fn(A, A) -> bool)
    requires
        unique_by(xs, same),
        key_relation(same),
    ensures
        upsert_all(Seq::<A>::empty(), xs, same) == xs,
    decreases xs.len(),
{
    if xs.len() > 0 {
        let rest = xs.drop_last();
        assert(unique_by(rest, same)) by {
            assert forall|i: int, j: int| 0 <= i < j < rest.len() implies !same(#[trigger] rest[i], #[trigger] rest[j]) by {
                assert(rest[i] == xs[i] && rest[j] == xs[j]);
            }
        }
        lemma_upsert_all_into_empty(rest, same);
        if exists|i: int| 0 <= i < rest.len() && same(#[trigger] rest[i], xs.last()) {
            let i = choose|i: int| 0 <= i < rest.len() && same(#[trigger] rest[i], xs.last());
            assert(xs[i] == rest[i]);
            assert(!same(xs[i], xs[xs.len() - 1]));
        }
        assert(rest.push(xs.last()) =~= xs);
    }
}

/// Rows with pairwise different keys keep them different in any reordering.
pub proof fn lemma_reorder_unique<A>(a: Seq<A>, b: Seq<A>, same: spec_fn(A, A) -> bool)
    requires
        a.to_multiset() == b.to_multiset(),
        unique_by(a, same),
        key_relation(same),
        forall|x: A| #[trigger] same(x, x),
    ensures
        unique_by(b, same),
{
    broadcast use vstd::seq_lib::group_to_multiset_ensures;

    assert(a.no_duplicates()) by {
        assert forall|i: int, j: int| 0 <= i < a.len() && 0 <= j < a.len() && i != j implies a[i]
            != a[j] by {
            if a[i] == a[j] {
                assert(same(a[i], a[i]));
                if i < j {
                    assert(!same(a[i], a[j]));
                } else {
                    assert(!same(a[j], a[i]));
                }
            }
        }
    }
    a.lemma_multiset_has_no_duplicates();
    b.lemma_multiset_has_no_duplicates_conv();
    a.to_multiset_ensures();
    b.to_multiset_ensures();
    assert forall|i: int, j: int| 0 <= i < j < b.len() implies !same(#[trigger] b[i], #[trigger] b[j]) by {
        assert(b.contains(b[i]));
        assert(b.contains(b[j]));
        assert(a.to_multiset().count(b[i]) > 0);
        assert(a.to_multiset().count(b[j]) > 0);
        let p = choose|p: int| 0 <= p < a.len() && a[p] == b[i];
        let q = choose|q: int| 0 <= q < a.len() && a[q] == b[j];
        assert(b[i] != b[j]);
        if same(b[i], b[j]) {
            if p < q {
                assert(!same(a[p], a[q]));
            } else {
                assert(!same(a[q], a[p]));
                assert(same(b[j], b[i]));
            }
        }
    }
}

/// `v` with every row of snapshot `b` written in, family by family.
pub open spec fn restored(v: StoreView, b: StoreView) -> StoreView {
    StoreView {
        weight: upsert_all(v.weight, b.weight, same_weight()),
        food: upsert_all(v.food, b.food, same_food()),
        user_settings: upsert_all(v.user_settings, b.user_settings, same_settings()),
        bundle: upsert_all(v.bundle, b.bundle, same_bundle()),
        journal: upsert_all(v.journal, b.journal, same_journal()),
        sport: upsert_all(v.sport, b.sport, same_sport()),
        sport_activity: upsert_all(v.sport_activity, b.sport_activity, same_activity()),
    }
}

/// `b` holds every row of `v`, each family ordered by natural key.
pub open spec fn snapshot_of(b: Backup, v: StoreView) -> bool {
    &&& b@.weight.to_multiset() == v.weight.to_multiset() && sorted_by_key(b.weight@)
    &&& b@.food.to_multiset() == v.food.to_multiset() && sorted_by_key(b.food@)
    &&& b@.user_settings.to_multiset() == v.user_settings.to_multiset() && sorted_by_key(
        b.user_settings@,
    )
    &&& b@.bundle.to_multiset() == v.bundle.to_multiset() && sorted_by_key(b.bundle@)
    &&& b@.journal.to_multiset() == v.journal.to_multiset() && sorted_by_key(b.journal@)
    &&& b@.sport.to_multiset() == v.sport.to_multiset() && sorted_by_key(b.sport@)
    &&& b@.sport_activity.to_multiset() == v.sport_activity.to_multiset() && sorted_by_key(
        b.sport_activity@,
    )
}

/// The journal rows that record totals `t` of a bundle for `user_id` at `timestamp` and `meal`.
pub open spec fn bundle_journal_rows(t: Seq<(String, i64)>, user_id: i64, timestamp: i64, meal: Meal) -> Seq<
    JournalBackup,
> {
    t.map_values(
        |p: (String, i64)|
            JournalBackup { user_id, timestamp, meal, food_key: p.0, food_weight: p.1 },
    )
}

/// Food `f` matches the folded pattern `p` in its key, name, brand or comment, compared in
/// upper case.
pub open spec fn food_matches(f: Food, p: Seq<char>) -> bool {
    ||| has_infix(upper_of(f.key@), p)
    ||| has_infix(upper_of(f.name@), p)
    ||| has_infix(upper_of(f.brand@), p)
    ||| has_infix(upper_of(f.comment@), p)
}

/// The foods of `s` that match the folded pattern `p`, in stored order.
pub open spec fn found_foods(s: Seq<Food>, p: Seq<char>) -> Seq<Food>
    decreases s.len(),
{
    if s.len() == 0 {
        Seq::empty()
    } else if food_matches(s.last(), p) {
        found_foods(s.drop_last(), p).push(s.last())
    } else {
        found_foods(s.drop_last(), p)
    }
}

/// The store `new` and result `r` of writing food `f` into store `old`.
pub open spec fn set_food_outcome(old: StoreView, new: StoreView, f: Food, r: Result<(), StorageError>) -> bool {
    &&& f.is_valid() ==> r is Ok && upserted(old.food, new.food, f, same_food()) && new == (StoreView {
        food: new.food,
        ..old
    })
    &&& !f.is_valid() ==> r == Err::<(), StorageError>(StorageError::FoodInvalid) && new == old
}

/// The result `r` of reading the food stored under `key` in store `v`.
pub open spec fn get_food_outcome(v: StoreView, key: Seq<char>, r: Result<Food, StorageError>) -> bool {
    match r {
        Ok(f) => f.key@ == key && v.food.contains(f),
        Err(e) => e == StorageError::FoodNotFound && !v.has_food(key),
    }
}

/// The store `new` and result `r` of deleting the food stored under `key` from store `old`.
pub open spec fn delete_food_outcome(old: StoreView, new: StoreView, key: Seq<char>, r: Result<(), StorageError>) -> bool {
    &&& (old.food_in_bundle(key) || old.food_in_journal(key)) ==> r == Err::<(), StorageError>(
        StorageError::FoodIsUsed,
    ) && new == old
    &&& !(old.food_in_bundle(key) || old.food_in_journal(key)) ==> r is Ok && removed(
        old.food,
        new.food,
        |f: Food| f.key@ == key,
    ) && new == (StoreView { food: new.food, ..old })
}

/// The store `new` and result `r` of deleting the sport stored under `key` from store `old`.
pub open spec fn delete_sport_outcome(old: StoreView, new: StoreView, key: Seq<char>, r: Result<(), StorageError>) -> bool {
    &&& old.sport_in_activity(key) ==> r == Err::<(), StorageError>(
        StorageError::SportIsUsedViolation,
    ) && new == old
    &&& !old.sport_in_activity(key) ==> r is Ok && removed(old.sport, new.sport, |s: Sport| s.key@ == key)
        && new == (StoreView { sport: new.sport, ..old })
}

/// The store `new` and result `r` of writing bundle `b` of `user_id` into store `old`: the
/// first refused entry decides the error.
pub open spec fn set_bundle_outcome(
    old: StoreView,
    new: StoreView,
    user_id: i64,
    b: Bundle,
    r: Result<(), StorageError>,
) -> bool {
    &&& !b.is_valid() ==> r == Err::<(), StorageError>(StorageError::BundleInvalid)
    &&& b.is_valid() && names_itself(b) ==> r == Err::<(), StorageError>(
        StorageError::BundleDepRecursive,
    )
    &&& b.is_valid() && !names_itself(b) && (forall|i: int|
        0 <= i < b.data@.len() ==> entry_error(old, user_id, b.key@, #[trigger] b.data@[i]) is None)
        ==> r is Ok
    &&& r is Ok ==> b.is_valid() && (forall|i: int|
        0 <= i < b.data@.len() ==> entry_error(old, user_id, b.key@, #[trigger] b.data@[i]) is None)
        && upserted(old.bundle, new.bundle, (user_id, b.key@, b.data@), same_bundle())
        && new == (StoreView { bundle: new.bundle, ..old })
    &&& r matches Err(e) ==> new == old && ((!b.is_valid() && e == StorageError::BundleInvalid) || (b.is_valid()
        && names_itself(b) && e == StorageError::BundleDepRecursive) || (b.is_valid() && !names_itself(b)
        && exists|i: int|
        0 <= i < b.data@.len() && entry_error(old, user_id, b.key@, #[trigger] b.data@[i]) == Some(e)
            && forall|j: int|
            0 <= j < i ==> entry_error(old, user_id, b.key@, #[trigger] b.data@[j]) is None))
}

/// The key relations of every family, and well-formedness in their terms.
pub proof fn lemma_key_relations(v: StoreView)
    ensures
        key_relation(same_weight()),
        key_relation(same_food()),
        key_relation(same_settings()),
        key_relation(same_bundle()),
        key_relation(same_journal()),
        key_relation(same_sport()),
        key_relation(same_activity()),
        weight_keys_unique(v.weight) == unique_by(v.weight, same_weight()),
        food_keys_unique(v.food) == unique_by(v.food, same_food()),
        settings_keys_unique(v.user_settings) == unique_by(v.user_settings, same_settings()),
        bundle_keys_unique(v.bundle) == unique_by(v.bundle, same_bundle()),
        journal_keys_unique(v.journal) == unique_by(v.journal, same_journal()),
        sport_keys_unique(v.sport) == unique_by(v.sport, same_sport()),
        activity_keys_unique(v.sport_activity) == unique_by(v.sport_activity, same_activity()),
{
}

/// `new` is `old` with `x` written under its key: in place of the row with the same key, or
/// appended when there is none.
pub open spec fn upserted<A>(old: Seq<A>, new: Seq<A>, x: A, same: spec_fn(A, A) -> bool) -> bool {
    ||| exists|i: int| 0 <= i < old.len() && same(#[trigger] old[i], x) && new == old.update(i, x)
    ||| (forall|i: int| 0 <= i < old.len() ==> !same(#[trigger] old[i], x)) && new == old.push(x)
}

/// `new` is `old` without the row that `hit` selects, if there is one.
pub open spec fn removed<A>(old: Seq<A>, new: Seq<A>, hit: spec_fn(A) -> bool) -> bool {
    ||| exists|i: int| 0 <= i < old.len() && hit(#[trigger] old[i]) && new == old.remove(i)
    ||| (forall|i: int| 0 <= i < old.len() ==> !hit(#[trigger] old[i])) && new == old
}

impl Ranked for Food {
    open spec fn rank_le(&self, other: &Food) -> bool {
        text_pair_le(self.name@, self.key@, other.name@, other.key@)
    }

    proof fn lemma_rank_total(a: &Food, b: &Food) {
        lemma_text_pair_total(a.name@, a.key@, b.name@, b.key@);
    }

    proof fn lemma_rank_trans(a: &Food, b: &Food, c: &Food) {
        lemma_text_pair_trans(a.name@, a.key@, b.name@, b.key@, c.name@, c.key@);
    }

    fn ranks_before(&self, other: &Food) -> (r: bool) {
        text_pair_before(self.name.as_str(), self.key.as_str(), other.name.as_str(), other.key.as_str())
    }
}

impl Ranked for Sport {
    open spec fn rank_le(&self, other: &Sport) -> bool {
        text_pair_le(self.name@, self.key@, other.name@, other.key@)
    }

    proof fn lemma_rank_total(a: &Sport, b: &Sport) {
        lemma_text_pair_total(a.name@, a.key@, b.name@, b.key@);
    }

    proof fn lemma_rank_trans(a: &Sport, b: &Sport, c: &Sport) {
        lemma_text_pair_trans(a.name@, a.key@, b.name@, b.key@, c.name@, c.key@);
    }

    fn ranks_before(&self, other: &Sport) -> (r: bool) {
        text_pair_before(self.name.as_str(), self.key.as_str(), other.name.as_str(), other.key.as_str())
    }
}

impl Ranked for Bundle {
    open spec fn rank_le(&self, other: &Bundle) -> bool {
        crate::order::text_cmp(self.key@, other.key@) <= 0
    }

    proof fn lemma_rank_total(a: &Bundle, b: &Bundle) {
        lemma_text_cmp_facts(a.key@, b.key@);
    }

    proof fn lemma_rank_trans(a: &Bundle, b: &Bundle, c: &Bundle) {
        lemma_text_cmp_trans(a.key@, b.key@, c.key@);
    }

    fn ranks_before(&self, other: &Bundle) -> (r: bool) {
        compare_text(self.key.as_str(), other.key.as_str()) <= 0
    }
}

/// The bundles of `user_id` as (key, entries), in stored order.
pub open spec fn user_bundles(s: Seq<(i64, Seq<char>, Seq<BundleEntry>)>, user_id: i64) -> Seq<
    (Seq<char>, Seq<BundleEntry>),
>
    decreases s.len(),
{
    if s.len() == 0 {
        Seq::empty()
    } else {
        let rest = user_bundles(s.drop_last(), user_id);
        if s.last().0 == user_id {
            rest.push((s.last().1, s.last().2))
        } else {
            rest
        }
    }
}

/// A chain of at most `fuel` nestings through stored bundles of `user_id` leads from bundle
/// `from` to bundle `target`.
pub open spec fn leads_to(v: StoreView, user_id: i64, from: Seq<char>, target: Seq<char>, fuel: nat) -> bool
    decreases fuel,
{
    from == target || (fuel > 0 && v.has_bundle(user_id, from) && exists|j: int|
        0 <= j < bundle_data(v, user_id, from).len() && (#[trigger] bundle_data(v, user_id, from)[j] is Bundle)
            && leads_to(v, user_id, bundle_data(v, user_id, from)[j].key(), target, (fuel - 1) as nat))
}

/// Bundle `b` names itself as a nested bundle.
pub open spec fn names_itself(b: Bundle) -> bool {
    exists|i: int| 0 <= i < b.data@.len() && (#[trigger] b.data@[i] is Bundle) && b.data@[i].key() == b.key@
}

/// Why writing a bundle of `user_id` named `bundle_key` must refuse entry `e`, if it must: a
/// nested bundle that is the bundle itself, is missing, or leads back to the bundle within as
/// many nestings as there are stored bundles (which would close a cycle); a missing food.
pub open spec fn entry_error(v: StoreView, user_id: i64, bundle_key: Seq<char>, e: BundleEntry) -> Option<
    StorageError,
> {
    match e {
        BundleEntry::Bundle { key } => if key@ == bundle_key {
            Some(StorageError::BundleDepRecursive)
        } else if !v.has_bundle(user_id, key@) {
            Some(StorageError::BundleDepBundleNotFound)
        } else if leads_to(v, user_id, key@, bundle_key, v.bundle.len()) {
            Some(StorageError::BundleDepRecursive)
        } else {
            None
        },
        BundleEntry::Food { key, .. } => if !v.has_food(key@) {
            Some(StorageError::BundleDepFoodNotFound)
        } else {
            None
        },
    }
}

/// The food stored under `key`, if any.
pub open spec fn food_of(foods: Seq<Food>, key: Seq<char>) -> Option<Food> {
    if exists|i: int| 0 <= i < foods.len() && #[trigger] foods[i].key@ == key {
        Some(foods[choose|i: int| 0 <= i < foods.len() && #[trigger] foods[i].key@ == key])
    } else {
        None
    }
}

/// The sport stored under `key`, if any.
pub open spec fn sport_of(sports: Seq<Sport>, key: Seq<char>) -> Option<Sport> {
    if exists|i: int| 0 <= i < sports.len() && #[trigger] sports[i].key@ == key {
        Some(sports[choose|i: int| 0 <= i < sports.len() && #[trigger] sports[i].key@ == key])
    } else {
        None
    }
}

/// The report row of journal row `j` eaten of food `f`.
pub open spec fn report_row(j: JournalBackup, f: Food) -> JournalReport {
    JournalReport {
        timestamp: j.timestamp,
        meal: j.meal,
        food_key: j.food_key,
        food_name: f.name,
        food_brand: f.brand,
        food_weight: j.food_weight,
        cal: scaled_amount(j.food_weight, f.cal100) as i128,
        prot: scaled_amount(j.food_weight, f.prot100) as i128,
        fat: scaled_amount(j.food_weight, f.fat100) as i128,
        carb: scaled_amount(j.food_weight, f.carb100) as i128,
    }
}

/// The journal rows of `user_id` from `from` to `to`, both included, joined with their foods,
/// in stored order; rows whose food is missing have no report row.
pub open spec fn journal_report_rows(
    js: Seq<JournalBackup>,
    foods: Seq<Food>,
    user_id: i64,
    from: i64,
    to: i64,
) -> Seq<JournalReport>
    decreases js.len(),
{
    if js.len() == 0 {
        Seq::empty()
    } else {
        let rest = journal_report_rows(js.drop_last(), foods, user_id, from, to);
        let j = js.last();
        if j.user_id == user_id && from <= j.timestamp <= to {
            match food_of(foods, j.food_key@) {
                Some(f) => rest.push(report_row(j, f)),
                None => rest,
            }
        } else {
            rest
        }
    }
}

/// The weights eaten by `user_id` of food `key` from `from` to `to`, both included.
pub open spec fn eaten_weights(js: Seq<JournalBackup>, user_id: i64, key: Seq<char>, from: i64, to: i64) -> Seq<
    i64,
>
    decreases js.len(),
{
    if js.len() == 0 {
        Seq::empty()
    } else {
        let rest = eaten_weights(js.drop_last(), user_id, key, from, to);
        let j = js.last();
        if j.user_id == user_id && j.food_key@ == key && from <= j.timestamp <= to {
            rest.push(j.food_weight)
        } else {
            rest
        }
    }
}

pub open spec fn total(s: Seq<i64>) -> int
    decreases s.len(),
{
    if s.len() == 0 {
        0
    } else {
        total(s.drop_last()) + s.last()
    }
}

/// The mean of `s` rounded down, or 0 for an empty sequence.
pub open spec fn mean(s: Seq<i64>) -> int {
    if s.len() == 0 {
        0
    } else {
        total(s) / (s.len() as int)
    }
}

/// The activity rows of `user_id` from `from` to `to`, both included, joined with their
/// sports as (sport name, time, sets), in stored order.
pub open spec fn activity_report_rows(
    acts: Seq<(i64, Seq<char>, i64, Seq<i64>)>,
    sports: Seq<Sport>,
    user_id: i64,
    from: i64,
    to: i64,
) -> Seq<(Seq<char>, i64, Seq<i64>)>
    decreases acts.len(),
{
    if acts.len() == 0 {
        Seq::empty()
    } else {
        let rest = activity_report_rows(acts.drop_last(), sports, user_id, from, to);
        let a = acts.last();
        if a.0 == user_id && from <= a.2 <= to {
            match sport_of(sports, a.1) {
                Some(s) => rest.push((s.name@, a.2, a.3)),
                None => rest,
            }
        } else {
            rest
        }
    }
}

impl Ranked for JournalReport {
    open spec fn rank_le(&self, other: &JournalReport) -> bool {
        ||| self.timestamp < other.timestamp
        ||| self.timestamp == other.timestamp && meal_ordinal(self.meal) < meal_ordinal(other.meal)
        ||| self.timestamp == other.timestamp && self.meal == other.meal && text_pair_le(
            self.food_name@,
            self.food_key@,
            other.food_name@,
            other.food_key@,
        )
    }

    proof fn lemma_rank_total(a: &JournalReport, b: &JournalReport) {
        lemma_text_pair_total(a.food_name@, a.food_key@, b.food_name@, b.food_key@);
    }

    proof fn lemma_rank_trans(a: &JournalReport, b: &JournalReport, c: &JournalReport) {
        if a.timestamp == b.timestamp && b.timestamp == c.timestamp && a.meal == b.meal && b.meal
            == c.meal {
            lemma_text_pair_trans(
                a.food_name@,
                a.food_key@,
                b.food_name@,
                b.food_key@,
                c.food_name@,
                c.food_key@,
            );
        }
    }

    fn ranks_before(&self, other: &JournalReport) -> (r: bool) {
        if self.timestamp != other.timestamp {
            return self.timestamp < other.timestamp;
        }
        let a = self.meal.to_u8();
        let b = other.meal.to_u8();
        if a != b {
            return a < b;
        }
        text_pair_before(
            self.food_name.as_str(),
            self.food_key.as_str(),
            other.food_name.as_str(),
            other.food_key.as_str(),
        )
    }
}

impl Ranked for SportActivityReport {
    open spec fn rank_le(&self, other: &SportActivityReport) -> bool {
        ||| self.timestamp < other.timestamp
        ||| self.timestamp == other.timestamp && crate::order::text_cmp(
            self.sport_name@,
            other.sport_name@,
        ) <= 0
    }

    proof fn lemma_rank_total(a: &SportActivityReport, b: &SportActivityReport) {
        lemma_text_cmp_facts(a.sport_name@, b.sport_name@);
    }

    proof fn lemma_rank_trans(
        a: &SportActivityReport,
        b: &SportActivityReport,
        c: &SportActivityReport,
    ) {
        if a.timestamp == b.timestamp && b.timestamp == c.timestamp {
            lemma_text_cmp_trans(a.sport_name@, b.sport_name@, c.sport_name@);
        }
    }

    fn ranks_before(&self, other: &SportActivityReport) -> (r: bool) {
        if self.timestamp != other.timestamp {
            return self.timestamp < other.timestamp;
        }
        compare_text(self.sport_name.as_str(), other.sport_name.as_str()) <= 0
    }
}

/// The journal rows that are not entries of `user_id` at `timestamp` and `meal`, in stored order.
pub open spec fn journal_without_meal(js: Seq<JournalBackup>, user_id: i64, timestamp: i64, meal: Meal) -> Seq<
    JournalBackup,
>
    decreases js.len(),
{
    if js.len() == 0 {
        Seq::empty()
    } else {
        let rest = journal_without_meal(js.drop_last(), user_id, timestamp, meal);
        let j = js.last();
        if j.user_id == user_id && j.timestamp == timestamp && j.meal == meal {
            rest
        } else {
            rest.push(j)
        }
    }
}

proof fn lemma_journal_without_meal(js: Seq<JournalBackup>, user_id: i64, timestamp: i64, meal: Meal)
    requires
        journal_keys_unique(js),
    ensures
        journal_keys_unique(journal_without_meal(js, user_id, timestamp, meal)),
        forall|x: int|
            0 <= x < journal_without_meal(js, user_id, timestamp, meal).len() ==> js.contains(
                #[trigger] journal_without_meal(js, user_id, timestamp, meal)[x],
            ),
    decreases js.len(),
{
    if js.len() > 0 {
        let rest = js.drop_last();
        lemma_journal_without_meal(rest, user_id, timestamp, meal);
        let k = journal_without_meal(rest, user_id, timestamp, meal);
        assert forall|x: int| 0 <= x < k.len() implies js.contains(#[trigger] k[x]) by {
            let y = choose|y: int| 0 <= y < rest.len() && rest[y] == k[x];
            assert(js[y] == rest[y]);
        }
        assert forall|x: int| 0 <= x < k.len() implies journal_key(#[trigger] k[x]) != journal_key(
            js.last(),
        ) by {
            let y = choose|y: int| 0 <= y < rest.len() && rest[y] == k[x];
            assert(js[y] == rest[y]);
            assert(js[js.len() - 1] == js.last());
        }
    }
}

/// The entries of the bundle of `user_id` stored under `key`.
pub open spec fn bundle_data(v: StoreView, user_id: i64, key: Seq<char>) -> Seq<BundleEntry> {
    v.bundle[choose|i: int|
        0 <= i < v.bundle.len() && #[trigger] v.bundle[i].0 == user_id && v.bundle[i].1 == key].2
}

/// The summed weight of food `key` in `st`.
pub open spec fn amount(st: Seq<(Seq<char>, i64)>, key: Seq<char>) -> int
    decreases st.len(),
{
    if st.len() == 0 {
        0
    } else {
        amount(st.drop_last(), key) + if st.last().0 == key {
            st.last().1 as int
        } else {
            0
        }
    }
}

/// `r` lists each food of `st` once, with its summed weight.
pub open spec fn totals_of(r: Seq<(String, i64)>, st: Seq<(Seq<char>, i64)>) -> bool {
    &&& forall|a: int, b: int| 0 <= a < b < r.len() ==> #[trigger] r[a].0@ != #[trigger] r[b].0@
    &&& forall|a: int| 0 <= a < r.len() ==> #[trigger] r[a].1 == amount(st, r[a].0@)
    &&& forall|x: int| 0 <= x < st.len() ==> #[trigger] has_total(r, st[x].0)
    &&& forall|a: int| 0 <= a < r.len() ==> #[trigger] in_stream(st, r[a].0@)
}

pub open spec fn has_total(r: Seq<(String, i64)>, key: Seq<char>) -> bool {
    exists|a: int| 0 <= a < r.len() && #[trigger] r[a].0@ == key
}

pub open spec fn in_stream(st: Seq<(Seq<char>, i64)>, key: Seq<char>) -> bool {
    exists|x: int| 0 <= x < st.len() && #[trigger] st[x].0 == key
}

proof fn lemma_amount_push(st: Seq<(Seq<char>, i64)>, x: (Seq<char>, i64), key: Seq<char>)
    ensures
        amount(st.push(x), key) == amount(st, key) + if x.0 == key {
            x.1 as int
        } else {
            0
        },
{
    assert(st.push(x).drop_last() =~= st);
}

proof fn lemma_amount_absent(st: Seq<(Seq<char>, i64)>, key: Seq<char>)
    requires
        forall|x: int| 0 <= x < st.len() ==> #[trigger] st[x].0 != key,
    ensures
        amount(st, key) == 0,
    decreases st.len(),
{
    if st.len() > 0 {
        lemma_amount_absent(st.drop_last(), key);
    }
}

/// Adds `w` of food `key` to the running totals `t` of the stream `st`; fails, leaving `t`
/// unchanged, when the new total does not fit.
fn add_amount(t: &mut Vec<(String, i64)>, key: &String, w: i64, Ghost(st): Ghost<
    Seq<(Seq<char>, i64)>,
>) -> (r: bool)
    requires
        totals_of(old(t)@, st),
    ensures
        r ==> totals_of(final(t)@, st.push((key@, w))),
        !r ==> final(t)@ == old(t)@ && !(i64::MIN <= amount(st, key@) + w <= i64::MAX),
{
    let ghost st2 = st.push((key@, w));
    let mut a: usize = 0;
    while a < t.len()
        invariant
            t@ == old(t)@,
            totals_of(old(t)@, st),
            st2 == st.push((key@, w)),
            a <= t@.len(),
            forall|b: int| 0 <= b < a ==> #[trigger] t@[b].0@ != key@,
        decreases t.len() - a,
    {
        if text_eq(t[a].0.as_str(), key.as_str()) {
            match t[a].1.checked_add(w) {
                Some(n) => {
                    let ghost before = t@;
                    let k = t[a].0.clone();
                    t.set(a, (k, n));
                    proof {
                        assert forall|b: int| 0 <= b < t@.len() implies #[trigger] t@[b].0@
                            == before[b].0@ by {}
                        assert forall|b: int, c: int| 0 <= b < c < t@.len() implies #[trigger] t@[b].0@
                            != #[trigger] t@[c].0@ by {
                            assert(t@[b].0@ == before[b].0@);
                            assert(t@[c].0@ == before[c].0@);
                        }
                        assert forall|b: int| 0 <= b < t@.len() implies #[trigger] t@[b].1 == amount(
                            st2,
                            t@[b].0@,
                        ) by {
                            lemma_amount_push(st, (key@, w), t@[b].0@);
                            if b != a {
                                assert(before[b].0@ != before[a as int].0@);
                            }
                        }
                        assert forall|x: int| 0 <= x < st2.len() implies #[trigger] has_total(t@, st2[x].0) by {
                            if x < st.len() {
                                assert(st2[x] == st[x]);
                                assert(has_total(before, st[x].0));
                                let b = choose|b: int| 0 <= b < before.len() && #[trigger] before[b].0@ == st[x].0;
                                assert(t@[b].0@ == before[b].0@);
                            } else {
                                assert(t@[a as int].0@ == st2[x].0);
                            }
                        }
                        assert forall|b: int| 0 <= b < t@.len() implies #[trigger] in_stream(st2, t@[b].0@) by {
                            assert(in_stream(st, before[b].0@));
                            let x = choose|x: int| 0 <= x < st.len() && #[trigger] st[x].0 == before[b].0@;
                            assert(st2[x] == st[x]);
                        }
                    }
                    return true;
                },
                None => {
                    proof {
                        lemma_amount_push(st, (key@, w), key@);
                    }
                    return false;
                },
            }
        }
        a = a + 1;
    }
    proof {
        assert forall|x: int| 0 <= x < st.len() implies #[trigger] st[x].0 != key@ by {
            assert(has_total(t@, st[x].0));
        }
        lemma_amount_absent(st, key@);
    }
    let ghost before = t@;
    t.push((key.clone(), w));
    proof {
        assert forall|b: int, c: int| 0 <= b < c < t@.len() implies #[trigger] t@[b].0@
            != #[trigger] t@[c].0@ by {
            assert(t@[b] == before[b]);
            assert(before[b].0@ != key@);
            if c < before.len() {
                assert(t@[c] == before[c]);
                assert(before[b].0@ != before[c].0@);
            } else {
                assert(t@[c].0@ == key@);
            }
        }
        assert forall|b: int| 0 <= b < t@.len() implies #[trigger] t@[b].1 == amount(st2, t@[b].0@) by {
            lemma_amount_push(st, (key@, w), t@[b].0@);
        }
        assert forall|x: int| 0 <= x < st2.len() implies #[trigger] has_total(t@, st2[x].0) by {
            if x < st.len() {
                assert(st2[x] == st[x]);
                assert(has_total(before, st[x].0));
                let b = choose|b: int| 0 <= b < before.len() && #[trigger] before[b].0@ == st[x].0;
                assert(t@[b] == before[b]);
            } else {
                assert(t@[before.len() as int].0@ == st2[x].0);
            }
        }
        assert forall|b: int| 0 <= b < t@.len() implies #[trigger] in_stream(st2, t@[b].0@) by {
            if b < before.len() {
                assert(t@[b] == before[b]);
                assert(in_stream(st, before[b].0@));
                let x = choose|x: int| 0 <= x < st.len() && #[trigger] st[x].0 == before[b].0@;
                assert(st2[x] == st[x]);
            } else {
                assert(st2[st.len() as int].0 == key@);
            }
        }
    }
    true
}

/// The food entries met on every path of nested bundles from bundle `key` of `user_id`,
/// depth first in entry order, through at most `fuel` bundles: a bundle nested under two
/// parents contributes once per parent. A missing bundle, or one past `fuel`, contributes
/// nothing.
pub open spec fn path_stream(v: StoreView, user_id: i64, key: Seq<char>, fuel: nat) -> Seq<
    (Seq<char>, i64),
>
    decreases fuel, 0nat,
{
    if fuel == 0 || !v.has_bundle(user_id, key) {
        Seq::empty()
    } else {
        let d = bundle_data(v, user_id, key);
        entries_stream(v, user_id, d, (fuel - 1) as nat, d.len())
    }
}

/// The food entries met on every path through the first `n` entries of `d`, nested bundles
/// expanded through at most `fuel` bundles.
pub open spec fn entries_stream(v: StoreView, user_id: i64, d: Seq<BundleEntry>, fuel: nat, n: nat) -> Seq<
    (Seq<char>, i64),
>
    decreases fuel, n,
{
    if n == 0 || n > d.len() {
        Seq::empty()
    } else {
        entries_stream(v, user_id, d, fuel, (n - 1) as nat) + match d[n - 1] {
            BundleEntry::Food { key, weight } => seq![(key@, weight)],
            BundleEntry::Bundle { key } => path_stream(v, user_id, key@, fuel),
        }
    }
}

/// The first fault met, depth first in entry order, while expanding bundle `key` of `user_id`
/// through at most `fuel` bundles: a missing bundle, nesting deeper than `fuel` (only a cycle
/// needs that many levels when `fuel` is the number of stored bundles), a missing food.
pub open spec fn path_fault(v: StoreView, user_id: i64, key: Seq<char>, fuel: nat) -> Option<StorageError>
    decreases fuel, 0nat,
{
    if !v.has_bundle(user_id, key) {
        Some(StorageError::BundleNotFound)
    } else if fuel == 0 {
        Some(StorageError::BundleDepRecursive)
    } else {
        let d = bundle_data(v, user_id, key);
        entries_fault(v, user_id, d, (fuel - 1) as nat, d.len())
    }
}

/// The first fault met while expanding the first `n` entries of `d`.
pub open spec fn entries_fault(v: StoreView, user_id: i64, d: Seq<BundleEntry>, fuel: nat, n: nat) -> Option<
    StorageError,
>
    decreases fuel, n,
{
    if n == 0 || n > d.len() {
        None
    } else {
        match entries_fault(v, user_id, d, fuel, (n - 1) as nat) {
            Some(e) => Some(e),
            None => match d[n - 1] {
                BundleEntry::Food { key, .. } => if v.has_food(key@) {
                    None
                } else {
                    Some(StorageError::FoodNotFound)
                },
                BundleEntry::Bundle { key } => path_fault(v, user_id, key@, fuel),
            },
        }
    }
}

/// Summing `st` in order, some running total of a food beyond the first `lo` entries leaves
/// the range of `i64`.
pub open spec fn overflows(st: Seq<(Seq<char>, i64)>, lo: int) -> bool {
    exists|k: int, f: Seq<char>|
        lo < k <= st.len() && !(i64::MIN <= #[trigger] amount(st.take(k), f) <= i64::MAX)
}

/// What resolving bundle `root` of `user_id` in `v` yields: the total weight of each food over
/// every path of nested bundles, or the first fault, or `Unknown` when a running total leaves
/// the range of `i64`. Paths are followed through at most as many bundles as are stored.
pub open spec fn resolved(
    v: StoreView,
    user_id: i64,
    root: Seq<char>,
    r: Result<Vec<(String, i64)>, StorageError>,
) -> bool {
    let fuel = v.bundle.len();
    let st = path_stream(v, user_id, root, fuel);
    &&& path_fault(v, user_id, root, fuel) is None && !overflows(st, 0) ==> r is Ok
    &&& match r {
        Ok(t) => path_fault(v, user_id, root, fuel) is None && totals_of(t@, st),
        Err(e) => path_fault(v, user_id, root, fuel) == Some(e) || (e == StorageError::Unknown
            && path_fault(v, user_id, root, fuel) is None && overflows(st, 0)),
    }
}

/// The entries of the first `j` entries form the start of those of the first `n`.
proof fn lemma_entries_prefix(v: StoreView, user_id: i64, d: Seq<BundleEntry>, fuel: nat, j: nat, n: nat)
    requires
        j <= n <= d.len(),
    ensures
        entries_stream(v, user_id, d, fuel, j) == entries_stream(v, user_id, d, fuel, n).take(
            entries_stream(v, user_id, d, fuel, j).len() as int,
        ),
        entries_stream(v, user_id, d, fuel, j).len() <= entries_stream(v, user_id, d, fuel, n).len(),
    decreases n,
{
    if j < n {
        lemma_entries_prefix(v, user_id, d, fuel, j, (n - 1) as nat);
        let a = entries_stream(v, user_id, d, fuel, j);
        let b = entries_stream(v, user_id, d, fuel, (n - 1) as nat);
        let c = entries_stream(v, user_id, d, fuel, n);
        assert(c.take(b.len() as int) =~= b);
        assert(c.take(a.len() as int) =~= b.take(a.len() as int));
    }
}

/// Once a fault is met among the first `j` entries, it stays the first fault of more entries.
proof fn lemma_fault_sticks(v: StoreView, user_id: i64, d: Seq<BundleEntry>, fuel: nat, j: nat, n: nat)
    requires
        j <= n <= d.len(),
        entries_fault(v, user_id, d, fuel, j) is Some,
    ensures
        entries_fault(v, user_id, d, fuel, n) == entries_fault(v, user_id, d, fuel, j),
    decreases n,
{
    if j < n {
        lemma_fault_sticks(v, user_id, d, fuel, j, (n - 1) as nat);
    }
}

/// Weight samples taken at the same time.
pub open spec fn same_time() -> spec_fn(Weight, Weight) -> bool {
    |a: Weight, b: Weight| a.timestamp == b.timestamp
}

proof fn lemma_weight_rows_unique(s: Seq<WeightBackup>, user_id: i64, from: i64, to: i64)
    requires
        weight_keys_unique(s),
    ensures
        unique_by(weight_rows(s, user_id, from, to), same_time()),
        forall|x: int|
            0 <= x < weight_rows(s, user_id, from, to).len() ==> exists|i: int|
                0 <= i < s.len() && s[i].user_id == user_id && s[i].timestamp == (
                #[trigger] weight_rows(s, user_id, from, to)[x]).timestamp,
    decreases s.len(),
{
    if s.len() > 0 {
        let rest = s.drop_last();
        assert(weight_keys_unique(rest)) by {
            assert forall|i: int, j: int| 0 <= i < j < rest.len() implies (#[trigger] rest[i].user_id,
                rest[i].timestamp) != (#[trigger] rest[j].user_id, rest[j].timestamp) by {
                assert(rest[i] == s[i] && rest[j] == s[j]);
            }
        }
        lemma_weight_rows_unique(rest, user_id, from, to);
        let g = weight_rows(rest, user_id, from, to);
        let n = weight_rows(s, user_id, from, to);
        assert forall|x: int| 0 <= x < g.len() implies exists|i: int|
            0 <= i < s.len() && s[i].user_id == user_id && s[i].timestamp == (#[trigger] g[x]).timestamp by {
            let i = choose|i: int|
                0 <= i < rest.len() && rest[i].user_id == user_id && rest[i].timestamp == g[x].timestamp;
            assert(s[i] == rest[i]);
        }
        let w = s.last();
        if w.user_id == user_id && from <= w.timestamp <= to {
            assert(n == g.push(Weight { timestamp: w.timestamp, value: w.value }));
            assert forall|x: int| 0 <= x < g.len() implies (#[trigger] g[x]).timestamp != w.timestamp by {
                let i = choose|i: int|
                    0 <= i < rest.len() && rest[i].user_id == user_id && rest[i].timestamp == g[x].timestamp;
                assert(s[i] == rest[i]);
                assert(s[s.len() - 1] == w);
            }
            assert forall|a: int, b: int| 0 <= a < b < n.len() implies !same_time()(
                #[trigger] n[a],
                #[trigger] n[b],
            ) by {
                if b < g.len() {
                    assert(n[a] == g[a] && n[b] == g[b]);
                } else {
                    assert(n[a] == g[a]);
                }
            }
            assert forall|x: int| 0 <= x < n.len() implies exists|i: int|
                0 <= i < s.len() && s[i].user_id == user_id && s[i].timestamp == (#[trigger] n[x]).timestamp by {
                if x < g.len() {
                    assert(n[x] == g[x]);
                } else {
                    assert(s[s.len() - 1] == w);
                }
            }
        }
    }
}

impl KeyOrder for WeightBackup {
    open spec fn key_le(&self, other: &WeightBackup) -> bool {
        self.user_id < other.user_id || (self.user_id == other.user_id && self.timestamp
            <= other.timestamp)
    }

    proof fn lemma_key_total(a: &WeightBackup, b: &WeightBackup) {
    }

    proof fn lemma_key_trans(a: &WeightBackup, b: &WeightBackup, c: &WeightBackup) {
    }

    fn key_before(&self, other: &WeightBackup) -> (r: bool) {
        self.user_id < other.user_id || (self.user_id == other.user_id && self.timestamp
            <= other.timestamp)
    }
}

impl KeyOrder for Food {
    open spec fn key_le(&self, other: &Food) -> bool {
        crate::order::text_cmp(self.key@, other.key@) <= 0
    }

    proof fn lemma_key_total(a: &Food, b: &Food) {
        lemma_text_cmp_facts(a.key@, b.key@);
    }

    proof fn lemma_key_trans(a: &Food, b: &Food, c: &Food) {
        lemma_text_cmp_trans(a.key@, b.key@, c.key@);
    }

    fn key_before(&self, other: &Food) -> (r: bool) {
        compare_text(self.key.as_str(), other.key.as_str()) <= 0
    }
}

impl KeyOrder for UserSettingsBackup {
    open spec fn key_le(&self, other: &UserSettingsBackup) -> bool {
        self.user_id <= other.user_id
    }

    proof fn lemma_key_total(a: &UserSettingsBackup, b: &UserSettingsBackup) {
    }

    proof fn lemma_key_trans(a: &UserSettingsBackup, b: &UserSettingsBackup, c: &UserSettingsBackup) {
    }

    fn key_before(&self, other: &UserSettingsBackup) -> (r: bool) {
        self.user_id <= other.user_id
    }
}

impl KeyOrder for BundleBackup {
    open spec fn key_le(&self, other: &BundleBackup) -> bool {
        self.user_id < other.user_id || (self.user_id == other.user_id && crate::order::text_cmp(
            self.key@,
            other.key@,
        ) <= 0)
    }

    proof fn lemma_key_total(a: &BundleBackup, b: &BundleBackup) {
        lemma_text_cmp_facts(a.key@, b.key@);
    }

    proof fn lemma_key_trans(a: &BundleBackup, b: &BundleBackup, c: &BundleBackup) {
        if a.user_id == b.user_id && b.user_id == c.user_id {
            lemma_text_cmp_trans(a.key@, b.key@, c.key@);
        }
    }

    fn key_before(&self, other: &BundleBackup) -> (r: bool) {
        if self.user_id != other.user_id {
            return self.user_id < other.user_id;
        }
        compare_text(self.key.as_str(), other.key.as_str()) <= 0
    }
}

impl KeyOrder for JournalBackup {
    open spec fn key_le(&self, other: &JournalBackup) -> bool {
        ||| self.user_id < other.user_id
        ||| self.user_id == other.user_id && self.timestamp < other.timestamp
        ||| self.user_id == other.user_id && self.timestamp == other.timestamp && meal_ordinal(
            self.meal,
        ) < meal_ordinal(other.meal)
        ||| self.user_id == other.user_id && self.timestamp == other.timestamp && self.meal
            == other.meal && crate::order::text_cmp(self.food_key@, other.food_key@) <= 0
    }

    proof fn lemma_key_total(a: &JournalBackup, b: &JournalBackup) {
        lemma_text_cmp_facts(a.food_key@, b.food_key@);
    }

    proof fn lemma_key_trans(a: &JournalBackup, b: &JournalBackup, c: &JournalBackup) {
        if a.user_id == b.user_id && b.user_id == c.user_id && a.timestamp == b.timestamp
            && b.timestamp == c.timestamp && a.meal == b.meal && b.meal == c.meal {
            lemma_text_cmp_trans(a.food_key@, b.food_key@, c.food_key@);
        }
    }

    fn key_before(&self, other: &JournalBackup) -> (r: bool) {
        if self.user_id != other.user_id {
            return self.user_id < other.user_id;
        }
        if self.timestamp != other.timestamp {
            return self.timestamp < other.timestamp;
        }
        let a = self.meal.to_u8();
        let b = other.meal.to_u8();
        if a != b {
            return a < b;
        }
        compare_text(self.food_key.as_str(), other.food_key.as_str()) <= 0
    }
}

impl KeyOrder for Sport {
    open spec fn key_le(&self, other: &Sport) -> bool {
        crate::order::text_cmp(self.key@, other.key@) <= 0
    }

    proof fn lemma_key_total(a: &Sport, b: &Sport) {
        lemma_text_cmp_facts(a.key@, b.key@);
    }

    proof fn lemma_key_trans(a: &Sport, b: &Sport, c: &Sport) {
        lemma_text_cmp_trans(a.key@, b.key@, c.key@);
    }

    fn key_before(&self, other: &Sport) -> (r: bool) {
        compare_text(self.key.as_str(), other.key.as_str()) <= 0
    }
}

impl KeyOrder for SportActivityBackup {
    open spec fn key_le(&self, other: &SportActivityBackup) -> bool {
        ||| self.user_id < other.user_id
        ||| self.user_id == other.user_id && self.timestamp < other.timestamp
        ||| self.user_id == other.user_id && self.timestamp == other.timestamp
            && crate::order::text_cmp(self.sport_key@, other.sport_key@) <= 0
    }

    proof fn lemma_key_total(a: &SportActivityBackup, b: &SportActivityBackup) {
        lemma_text_cmp_facts(a.sport_key@, b.sport_key@);
    }

    proof fn lemma_key_trans(
        a: &SportActivityBackup,
        b: &SportActivityBackup,
        c: &SportActivityBackup,
    ) {
        if a.user_id == b.user_id && b.user_id == c.user_id && a.timestamp == b.timestamp
            && b.timestamp == c.timestamp {
            lemma_text_cmp_trans(a.sport_key@, b.sport_key@, c.sport_key@);
        }
    }

    fn key_before(&self, other: &SportActivityBackup) -> (r: bool) {
        if self.user_id != other.user_id {
            return self.user_id < other.user_id;
        }
        if self.timestamp != other.timestamp {
            return self.timestamp < other.timestamp;
        }
        compare_text(self.sport_key.as_str(), other.sport_key.as_str()) <= 0
    }
}

impl Ranked for Weight {
    open spec fn rank_le(&self, other: &Weight) -> bool {
        self.timestamp <= other.timestamp
    }

    proof fn lemma_rank_total(a: &Weight, b: &Weight) {
    }

    proof fn lemma_rank_trans(a: &Weight, b: &Weight, c: &Weight) {
    }

    fn ranks_before(&self, other: &Weight) -> (r: bool) {
        self.timestamp <= other.timestamp
    }
}

/// The store: every entity family with the integrity rules that tie them together.
pub struct Store {
    weight: Vec<WeightBackup>,
    food: Vec<Food>,
    user_settings: Vec<UserSettingsBackup>,
    bundle: Vec<BundleBackup>,
    journal: Vec<JournalBackup>,
    sport: Vec<Sport>,
    sport_activity: Vec<SportActivityBackup>,
}

impl View for Store {
    type V = StoreView;

    closed spec fn view(&self) -> StoreView {
        StoreView {
            weight: self.weight@,
            food: self.food@,
            user_settings: self.user_settings@,
            bundle: self.bundle@.map_values(|b: BundleBackup| b@),
            journal: self.journal@,
            sport: self.sport@,
            sport_activity: self.sport_activity@.map_values(|a: SportActivityBackup| a@),
        }
    }
}

impl Store {
    /// An empty store.
    pub fn new() -> (r: Store)
        ensures
            r@.wf(),
            r@.weight.len() == 0,
            r@.food.len() == 0,
            r@.user_settings.len() == 0,
            r@.bundle.len() == 0,
            r@.journal.len() == 0,
            r@.sport.len() == 0,
            r@.sport_activity.len() == 0,
    {
        Store {
            weight: Vec::new(),
            food: Vec::new(),
            user_settings: Vec::new(),
            bundle: Vec::new(),
            journal: Vec::new(),
            sport: Vec::new(),
            sport_activity: Vec::new(),
        }
    }

    fn food_index(&self, key: &str) -> (r: Option<usize>)
        ensures
            match r {
                Some(i) => i < self@.food.len() && self@.food[i as int].key@ == key@,
                None => !self@.has_food(key@),
            },
    {
        let mut i: usize = 0;
        while i < self.food.len()
            invariant
                i <= self.food@.len(),
                self@.food == self.food@,
                forall|j: int| 0 <= j < i ==> #[trigger] self.food@[j].key@ != key@,
            decreases self.food.len() - i,
        {
            if text_eq(self.food[i].key.as_str(), key) {
                return Some(i);
            }
            i = i + 1;
        }
        None
    }

    /// The food stored under `key`.
    pub fn get_food(&self, key: &str) -> (r: Result<Food, StorageError>)
        ensures
            get_food_outcome(self@, key@, r),
    {
        match self.food_index(key) {
            Some(i) => Ok(self.food[i].clone()),
            None => Err(StorageError::FoodNotFound),
        }
    }

    /// All foods, ordered by name, then key.
    pub fn get_food_list(&self) -> (r: Result<Vec<Food>, StorageError>)
        ensures
            match r {
                Ok(v) => self@.food.len() > 0 && v@.to_multiset() == self@.food.to_multiset()
                    && sorted_by_rank(v@),
                Err(e) => e == StorageError::EmptyResult && self@.food.len() == 0,
            },
    {
        if self.food.len() == 0 {
            return Err(StorageError::EmptyResult);
        }
        let mut all: Vec<Food> = Vec::new();
        let mut i: usize = 0;
        while i < self.food.len()
            invariant
                i <= self.food@.len(),
                self@.food == self.food@,
                all@ == self.food@.take(i as int),
            decreases self.food.len() - i,
        {
            all.push(self.food[i].clone());
            proof {
                assert(self.food@.take(i + 1) =~= self.food@.take(i as int).push(self.food@[i as int]));
            }
            i = i + 1;
        }
        proof {
            assert(self.food@.take(self.food@.len() as int) =~= self.food@);
        }
        Ok(sort_by_rank(all))
    }

    /// Writes `food` under its key, replacing all fields of a row with the same key.
    pub fn set_food(&mut self, food: Food) -> (r: Result<(), StorageError>)
        requires
            old(self)@.wf(),
        ensures
            final(self)@.wf(),
            set_food_outcome(old(self)@, final(self)@, food, r),
    {
        if !food.validate() {
            return Err(StorageError::FoodInvalid);
        }
        let ghost f = food;
        match self.food_index(food.key.as_str()) {
            Some(i) => {
                self.food.set(i, food);
                proof {
                    assert(self@.food == old(self)@.food.update(i as int, f));
                    assert forall|a: int, b: int|
                        0 <= a < b < self@.food.len() implies #[trigger] self@.food[a].key@
                        != #[trigger] self@.food[b].key@ by {
                        assert(old(self)@.food[i as int].key@ == f.key@);
                        assert(self@.food[i as int] == f);
                        let ok = old(self)@.food;
                        if a != i {
                            assert(ok[a] == self@.food[a]);
                            assert(ok[a].key@ != ok[i as int].key@);
                        }
                        if b != i {
                            assert(ok[b] == self@.food[b]);
                            assert(ok[b].key@ != ok[i as int].key@);
                        }
                        if a != i && b != i {
                            assert(ok[a].key@ != ok[b].key@);
                        }
                    }
                }
            },
            None => {
                self.food.push(food);
                proof {
                    let ok = old(self)@.food;
                    assert(self@.food == ok.push(f));
                    assert forall|a: int, b: int|
                        0 <= a < b < self@.food.len() implies #[trigger] self@.food[a].key@
                        != #[trigger] self@.food[b].key@ by {
                        assert(self@.food[a] == ok[a]);
                        if b < ok.len() {
                            assert(self@.food[b] == ok[b]);
                            assert(ok[a].key@ != ok[b].key@);
                        } else {
                            assert(ok[a].key@ != f.key@);
                        }
                    }
                }
            },
        }
        proof {
            assert(food_keys_unique(self@.food));
            assert(self@.weight == old(self)@.weight);
        }
        Ok(())
    }

    /// The foods whose key, name, brand or comment holds `pattern`, ignoring case, ordered
    /// by name, then key.
    pub fn find_food(&self, pattern: &str) -> (r: Result<Vec<Food>, StorageError>)
        ensures
            match r {
                Ok(v) => v@.len() > 0 && v@.to_multiset() == found_foods(
                    self@.food,
                    upper_of(pattern@),
                ).to_multiset() && sorted_by_rank(v@),
                Err(e) => e == StorageError::EmptyResult && found_foods(
                    self@.food,
                    upper_of(pattern@),
                ).len() == 0,
            },
    {
        let p = uppercase(pattern);
        let mut rows: Vec<Food> = Vec::new();
        let mut i: usize = 0;
        while i < self.food.len()
            invariant
                i <= self.food@.len(),
                self@.food == self.food@,
                p@ == upper_of(pattern@),
                rows@ == found_foods(self.food@.take(i as int), p@),
            decreases self.food.len() - i,
        {
            let f = &self.food[i];
            proof {
                assert(self.food@.take(i + 1).drop_last() =~= self.food@.take(i as int));
            }
            let hit = contains_folded(uppercase(f.key.as_str()).as_str(), p.as_str())
                || contains_folded(uppercase(f.name.as_str()).as_str(), p.as_str())
                || contains_folded(uppercase(f.brand.as_str()).as_str(), p.as_str())
                || contains_folded(uppercase(f.comment.as_str()).as_str(), p.as_str());
            if hit {
                rows.push(f.clone());
            }
            i = i + 1;
        }
        proof {
            assert(self.food@.take(self.food@.len() as int) =~= self.food@);
        }
        if rows.len() == 0 {
            return Err(StorageError::EmptyResult);
        }
        let v = sort_by_rank(rows);
        proof {
            v@.to_multiset_ensures();
            rows@.to_multiset_ensures();
        }
        Ok(v)
    }

    /// Removes the food stored under `key`, unless a bundle or a journal entry refers to it.
    pub fn delete_food(&mut self, key: &str) -> (r: Result<(), StorageError>)
        requires
            old(self)@.wf(),
        ensures
            final(self)@.wf(),
            delete_food_outcome(old(self)@, final(self)@, key@, r),
    {
        let mut i: usize = 0;
        while i < self.bundle.len()
            invariant
                i <= self.bundle@.len(),
                self@ == old(self)@,
                old(self)@.wf(),
                self@.bundle == self.bundle@.map_values(|b: BundleBackup| b@),
                forall|a: int, j: int|
                    0 <= a < i && 0 <= j < self@.bundle[a].2.len() ==> !(
                    #[trigger] self@.bundle[a].2[j] matches BundleEntry::Food { key: k, .. } && k@
                        == key@),
            decreases self.bundle.len() - i,
        {
            let data = &self.bundle[i].data;
            let mut j: usize = 0;
            while j < data.len()
                invariant
                    i < self.bundle@.len(),
                    self@ == old(self)@,
                old(self)@.wf(),
                    j <= data@.len(),
                    data@ == self@.bundle[i as int].2,
                    forall|b: int| 0 <= b < j ==> !(#[trigger] data@[b] matches BundleEntry::Food {
                        key: k,
                        ..
                    } && k@ == key@),
                decreases data.len() - j,
            {
                if let BundleEntry::Food { key: k, .. } = &data[j] {
                    if text_eq(k.as_str(), key) {
                        return Err(StorageError::FoodIsUsed);
                    }
                }
                j = j + 1;
            }
            i = i + 1;
        }
        let mut i: usize = 0;
        while i < self.journal.len()
            invariant
                i <= self.journal@.len(),
                self@ == old(self)@,
                old(self)@.wf(),
                self@.journal == self.journal@,
                !old(self)@.food_in_bundle(key@),
                forall|a: int| 0 <= a < i ==> #[trigger] self.journal@[a].food_key@ != key@,
            decreases self.journal.len() - i,
        {
            if text_eq(self.journal[i].food_key.as_str(), key) {
                return Err(StorageError::FoodIsUsed);
            }
            i = i + 1;
        }
        match self.food_index(key) {
            Some(i) => {
                self.food.remove(i);
                proof {
                    assert(self@.food == old(self)@.food.remove(i as int));
                    assert forall|a: int, b: int|
                        0 <= a < b < self@.food.len() implies #[trigger] self@.food[a].key@
                        != #[trigger] self@.food[b].key@ by {
                        let a2 = if a < i { a } else { a + 1 };
                        let b2 = if b < i { b } else { b + 1 };
                        assert(self@.food[a] == old(self)@.food[a2]);
                        assert(self@.food[b] == old(self)@.food[b2]);
                    }
                }
            },
            None => {},
        }
        Ok(())
    }

    fn sport_index(&self, key: &str) -> (r: Option<usize>)
        ensures
            match r {
                Some(i) => i < self@.sport.len() && self@.sport[i as int].key@ == key@,
                None => !self@.has_sport(key@),
            },
    {
        let mut i: usize = 0;
        while i < self.sport.len()
            invariant
                i <= self.sport@.len(),
                self@.sport == self.sport@,
                forall|j: int| 0 <= j < i ==> #[trigger] self.sport@[j].key@ != key@,
            decreases self.sport.len() - i,
        {
            if text_eq(self.sport[i].key.as_str(), key) {
                return Some(i);
            }
            i = i + 1;
        }
        None
    }

    /// The sport stored under `key`.
    pub fn get_sport(&self, key: &str) -> (r: Result<Sport, StorageError>)
        ensures
            match r {
                Ok(s) => s.key@ == key@ && self@.sport.contains(s),
                Err(e) => e == StorageError::SportNotFound && !self@.has_sport(key@),
            },
    {
        match self.sport_index(key) {
            Some(i) => Ok(self.sport[i].clone()),
            None => Err(StorageError::SportNotFound),
        }
    }

    /// All sports, ordered by name, then key.
    pub fn get_sport_list(&self) -> (r: Result<Vec<Sport>, StorageError>)
        ensures
            match r {
                Ok(v) => self@.sport.len() > 0 && v@.to_multiset() == self@.sport.to_multiset()
                    && sorted_by_rank(v@),
                Err(e) => e == StorageError::EmptyResult && self@.sport.len() == 0,
            },
    {
        if self.sport.len() == 0 {
            return Err(StorageError::EmptyResult);
        }
        let mut all: Vec<Sport> = Vec::new();
        let mut i: usize = 0;
        while i < self.sport.len()
            invariant
                i <= self.sport@.len(),
                self@.sport == self.sport@,
                all@ == self.sport@.take(i as int),
            decreases self.sport.len() - i,
        {
            all.push(self.sport[i].clone());
            proof {
                assert(self.sport@.take(i + 1) =~= self.sport@.take(i as int).push(
                    self.sport@[i as int],
                ));
            }
            i = i + 1;
        }
        proof {
            assert(self.sport@.take(self.sport@.len() as int) =~= self.sport@);
        }
        Ok(sort_by_rank(all))
    }

    /// Writes `sport` under its key, replacing all fields of a row with the same key.
    pub fn set_sport(&mut self, sport: Sport) -> (r: Result<(), StorageError>)
        requires
            old(self)@.wf(),
        ensures
            final(self)@.wf(),
            sport.is_valid() ==> r is Ok && upserted(
                old(self)@.sport,
                final(self)@.sport,
                sport,
                same_sport(),
            ) && final(self)@ == (StoreView { sport: final(self)@.sport, ..old(self)@ }),
            !sport.is_valid() ==> r == Err::<(), StorageError>(StorageError::SportInvalid)
                && final(self)@ == old(self)@,
    {
        if !sport.validate() {
            return Err(StorageError::SportInvalid);
        }
        match self.sport_index(sport.key.as_str()) {
            Some(i) => {
                self.sport[i] = sport;
            },
            None => {
                self.sport.push(sport);
            },
        }
        Ok(())
    }

    /// Removes the sport stored under `key`, unless an activity record refers to it.
    pub fn delete_sport(&mut self, key: &str) -> (r: Result<(), StorageError>)
        requires
            old(self)@.wf(),
        ensures
            final(self)@.wf(),
            delete_sport_outcome(old(self)@, final(self)@, key@, r),
    {
        let mut i: usize = 0;
        while i < self.sport_activity.len()
            invariant
                i <= self.sport_activity@.len(),
                self@ == old(self)@,
                old(self)@.wf(),
                self@.sport_activity == self.sport_activity@.map_values(
                    |a: SportActivityBackup| a@,
                ),
                forall|a: int| 0 <= a < i ==> #[trigger] self@.sport_activity[a].1 != key@,
            decreases self.sport_activity.len() - i,
        {
            if text_eq(self.sport_activity[i].sport_key.as_str(), key) {
                assert(self@.sport_activity[i as int].1 == key@);
                return Err(StorageError::SportIsUsedViolation);
            }
            i = i + 1;
        }
        match self.sport_index(key) {
            Some(i) => {
                self.sport.remove(i);
            },
            None => {},
        }
        Ok(())
    }

    fn weight_index(&self, user_id: i64, timestamp: i64) -> (r: Option<usize>)
        ensures
            match r {
                Some(i) => i < self@.weight.len() && self@.weight[i as int].user_id == user_id
                    && self@.weight[i as int].timestamp == timestamp,
                None => forall|j: int|
                    0 <= j < self@.weight.len() ==> (#[trigger] self@.weight[j].user_id,
                    self@.weight[j].timestamp) != (user_id, timestamp),
            },
    {
        let mut i: usize = 0;
        while i < self.weight.len()
            invariant
                i <= self.weight@.len(),
                self@.weight == self.weight@,
                forall|j: int|
                    0 <= j < i ==> (#[trigger] self.weight@[j].user_id, self.weight@[j].timestamp)
                        != (user_id, timestamp),
            decreases self.weight.len() - i,
        {
            if self.weight[i].user_id == user_id && self.weight[i].timestamp == timestamp {
                return Some(i);
            }
            i = i + 1;
        }
        None
    }

    /// The weight samples of `user_id` taken from `from` to `to`, both included, by time.
    pub fn get_weight_list(&self, user_id: i64, from: i64, to: i64) -> (r: Result<
        Vec<Weight>,
        StorageError,
    >)
        ensures
            match r {
                Ok(v) => v@.len() > 0 && v@.to_multiset() == weight_rows(
                    self@.weight,
                    user_id,
                    from,
                    to,
                ).to_multiset() && sorted_by_rank(v@) && (self@.wf() ==> forall|i: int, j: int|
                    0 <= i < j < v@.len() ==> #[trigger] v@[i].timestamp < #[trigger] v@[j].timestamp),
                Err(e) => e == StorageError::EmptyResult && weight_rows(
                    self@.weight,
                    user_id,
                    from,
                    to,
                ).len() == 0,
            },
    {
        let mut rows: Vec<Weight> = Vec::new();
        let mut i: usize = 0;
        while i < self.weight.len()
            invariant
                i <= self.weight@.len(),
                self@.weight == self.weight@,
                rows@ == weight_rows(self.weight@.take(i as int), user_id, from, to),
            decreases self.weight.len() - i,
        {
            let w = self.weight[i];
            if w.user_id == user_id && from <= w.timestamp && w.timestamp <= to {
                rows.push(Weight { timestamp: w.timestamp, value: w.value });
            }
            proof {
                assert(self.weight@.take(i + 1).drop_last() =~= self.weight@.take(i as int));
            }
            i = i + 1;
        }
        proof {
            assert(self.weight@.take(self.weight@.len() as int) =~= self.weight@);
        }
        if rows.len() == 0 {
            return Err(StorageError::EmptyResult);
        }
        let v = sort_by_rank(rows);
        proof {
            v@.to_multiset_ensures();
            rows@.to_multiset_ensures();
            if self@.wf() {
                lemma_weight_rows_unique(self@.weight, user_id, from, to);
                lemma_reorder_unique(rows@, v@, same_time());
                assert forall|i: int, j: int| 0 <= i < j < v@.len() implies #[trigger] v@[i].timestamp
                    < #[trigger] v@[j].timestamp by {
                    assert(v@[i].rank_le(&v@[j]));
                    assert(!same_time()(v@[i], v@[j]));
                }
            }
        }
        Ok(v)
    }

    /// Writes the sample `weight` of `user_id` under its time.
    pub fn set_weight(&mut self, user_id: i64, weight: Weight) -> (r: Result<(), StorageError>)
        requires
            old(self)@.wf(),
        ensures
            final(self)@.wf(),
            weight.is_valid() ==> r is Ok && upserted(
                old(self)@.weight,
                final(self)@.weight,
                WeightBackup { user_id, timestamp: weight.timestamp, value: weight.value },
                same_weight(),
            ) && final(self)@ == (StoreView { weight: final(self)@.weight, ..old(self)@ }),
            !weight.is_valid() ==> r == Err::<(), StorageError>(StorageError::WeightInvalid)
                && final(self)@ == old(self)@,
    {
        if !weight.validate() {
            return Err(StorageError::WeightInvalid);
        }
        let row = WeightBackup { user_id, timestamp: weight.timestamp, value: weight.value };
        match self.weight_index(user_id, weight.timestamp) {
            Some(i) => {
                self.weight.set(i, row);
            },
            None => {
                self.weight.push(row);
            },
        }
        Ok(())
    }

    /// Removes the sample of `user_id` taken at `timestamp`, if any.
    pub fn delete_weight(&mut self, user_id: i64, timestamp: i64)
        requires
            old(self)@.wf(),
        ensures
            final(self)@.wf(),
            removed(
                old(self)@.weight,
                final(self)@.weight,
                |w: WeightBackup| w.user_id == user_id && w.timestamp == timestamp,
            ),
            final(self)@ == (StoreView { weight: final(self)@.weight, ..old(self)@ }),
    {
        match self.weight_index(user_id, timestamp) {
            Some(i) => {
                self.weight.remove(i);
            },
            None => {},
        }
    }

    fn settings_index(&self, user_id: i64) -> (r: Option<usize>)
        ensures
            match r {
                Some(i) => i < self@.user_settings.len() && self@.user_settings[i as int].user_id
                    == user_id,
                None => forall|j: int|
                    0 <= j < self@.user_settings.len() ==> #[trigger] self@.user_settings[j].user_id
                        != user_id,
            },
    {
        let mut i: usize = 0;
        while i < self.user_settings.len()
            invariant
                i <= self.user_settings@.len(),
                self@.user_settings == self.user_settings@,
                forall|j: int| 0 <= j < i ==> #[trigger] self.user_settings@[j].user_id != user_id,
            decreases self.user_settings.len() - i,
        {
            if self.user_settings[i].user_id == user_id {
                return Some(i);
            }
            i = i + 1;
        }
        None
    }

    /// The settings of `user_id`.
    pub fn get_user_settings(&self, user_id: i64) -> (r: Result<UserSettings, StorageError>)
        ensures
            match r {
                Ok(s) => exists|i: int|
                    0 <= i < self@.user_settings.len() && #[trigger] self@.user_settings[i]
                        == (UserSettingsBackup { user_id, cal_limit: s.cal_limit }),
                Err(e) => e == StorageError::UserSettingsNotFound && forall|i: int|
                    0 <= i < self@.user_settings.len() ==> #[trigger] self@.user_settings[i].user_id
                        != user_id,
            },
    {
        match self.settings_index(user_id) {
            Some(i) => Ok(UserSettings { cal_limit: self.user_settings[i].cal_limit }),
            None => Err(StorageError::UserSettingsNotFound),
        }
    }

    /// Writes the settings of `user_id`.
    pub fn set_user_settings(&mut self, user_id: i64, settings: UserSettings) -> (r: Result<
        (),
        StorageError,
    >)
        requires
            old(self)@.wf(),
        ensures
            final(self)@.wf(),
            settings.is_valid() ==> r is Ok && upserted(
                old(self)@.user_settings,
                final(self)@.user_settings,
                UserSettingsBackup { user_id, cal_limit: settings.cal_limit },
                same_settings(),
            ) && final(self)@ == (StoreView {
                user_settings: final(self)@.user_settings,
                ..old(self)@
            }),
            !settings.is_valid() ==> r == Err::<(), StorageError>(
                StorageError::UserSettingsInvalid,
            ) && final(self)@ == old(self)@,
    {
        if !settings.validate() {
            return Err(StorageError::UserSettingsInvalid);
        }
        let row = UserSettingsBackup { user_id, cal_limit: settings.cal_limit };
        match self.settings_index(user_id) {
            Some(i) => {
                self.user_settings.set(i, row);
            },
            None => {
                self.user_settings.push(row);
            },
        }
        Ok(())
    }

    fn bundle_index(&self, user_id: i64, key: &str) -> (r: Option<usize>)
        ensures
            match r {
                Some(i) => i < self@.bundle.len() && self@.bundle[i as int].0 == user_id
                    && self@.bundle[i as int].1 == key@,
                None => !self@.has_bundle(user_id, key@),
            },
    {
        let mut i: usize = 0;
        while i < self.bundle.len()
            invariant
                i <= self.bundle@.len(),
                self@.bundle == self.bundle@.map_values(|b: BundleBackup| b@),
                forall|j: int|
                    0 <= j < i ==> !(#[trigger] self@.bundle[j].0 == user_id && self@.bundle[j].1
                        == key@),
            decreases self.bundle.len() - i,
        {
            if self.bundle[i].user_id == user_id && text_eq(self.bundle[i].key.as_str(), key) {
                return Some(i);
            }
            i = i + 1;
        }
        None
    }

    /// The bundle of `user_id` stored under `key`.
    pub fn get_bundle(&self, user_id: i64, key: &str) -> (r: Result<Bundle, StorageError>)
        ensures
            match r {
                Ok(b) => b.key@ == key@ && self@.bundle.contains((user_id, key@, b.data@)),
                Err(e) => e == StorageError::BundleNotFound && !self@.has_bundle(user_id, key@),
            },
    {
        match self.bundle_index(user_id, key) {
            Some(i) => {
                let data = clone_entries(&self.bundle[i].data);
                let b = Bundle { key: self.bundle[i].key.clone(), data };
                proof {
                    assert(self@.bundle[i as int] == (user_id, key@, b.data@));
                }
                Ok(b)
            },
            None => Err(StorageError::BundleNotFound),
        }
    }

    /// The bundles of `user_id`, ordered by key.
    pub fn get_bundle_list(&self, user_id: i64) -> (r: Result<Vec<Bundle>, StorageError>)
        ensures
            match r {
                Ok(v) => v@.len() > 0 && v@.map_values(|b: Bundle| b@).to_multiset() == user_bundles(
                    self@.bundle,
                    user_id,
                ).to_multiset() && sorted_by_rank(v@),
                Err(e) => e == StorageError::EmptyResult && user_bundles(
                    self@.bundle,
                    user_id,
                ).len() == 0,
            },
    {
        let mut rows: Vec<Bundle> = Vec::new();
        let mut i: usize = 0;
        while i < self.bundle.len()
            invariant
                i <= self.bundle@.len(),
                self@.bundle == self.bundle@.map_values(|b: BundleBackup| b@),
                rows@.map_values(|b: Bundle| b@) == user_bundles(
                    self@.bundle.take(i as int),
                    user_id,
                ),
            decreases self.bundle.len() - i,
        {
            let ghost before = rows@;
            if self.bundle[i].user_id == user_id {
                let data = clone_entries(&self.bundle[i].data);
                rows.push(Bundle { key: self.bundle[i].key.clone(), data });
                proof {
                    assert(rows@.map_values(|b: Bundle| b@) =~= before.map_values(|b: Bundle| b@).push(
                        (self@.bundle[i as int].1, self@.bundle[i as int].2),
                    ));
                }
            }
            proof {
                assert(self@.bundle.take(i + 1).drop_last() =~= self@.bundle.take(i as int));
            }
            i = i + 1;
        }
        proof {
            assert(self@.bundle.take(self@.bundle.len() as int) =~= self@.bundle);
        }
        if rows.len() == 0 {
            return Err(StorageError::EmptyResult);
        }
        let v = sort_by_rank(rows);
        proof {
            lemma_map_multiset(v@, rows@, |b: Bundle| b@);
            v@.to_multiset_ensures();
            rows@.to_multiset_ensures();
        }
        Ok(v)
    }

    fn leads(&self, user_id: i64, from: &str, target: &str, fuel: usize) -> (r: bool)
        requires
            self@.wf(),
        ensures
            r == leads_to(self@, user_id, from@, target@, fuel as nat),
        decreases fuel,
    {
        if text_eq(from, target) {
            return true;
        }
        if fuel == 0 {
            return false;
        }
        let bi = match self.bundle_index(user_id, from) {
            Some(bi) => bi,
            None => {
                return false;
            },
        };
        let ghost v = self@;
        proof {
            let c = choose|c: int|
                0 <= c < v.bundle.len() && #[trigger] v.bundle[c].0 == user_id && v.bundle[c].1 == from@;
            assert(c == bi);
        }
        let data = &self.bundle[bi].data;
        assert(data@ == bundle_data(v, user_id, from@));
        assert(v.has_bundle(user_id, from@));
        let mut j: usize = 0;
        while j < data.len()
            invariant
                v == self@,
                v.wf(),
                fuel > 0,
                from@ != target@,
                v.has_bundle(user_id, from@),
                j <= data@.len(),
                data@ == bundle_data(v, user_id, from@),
                forall|k: int|
                    0 <= k < j ==> !((#[trigger] data@[k] is Bundle) && leads_to(
                        v,
                        user_id,
                        data@[k].key(),
                        target@,
                        (fuel - 1) as nat,
                    )),
            decreases data.len() - j,
        {
            if let BundleEntry::Bundle { key: c } = &data[j] {
                if self.leads(user_id, c.as_str(), target, fuel - 1) {
                    proof {
                        assert(bundle_data(v, user_id, from@)[j as int] is Bundle);
                        assert(bundle_data(v, user_id, from@)[j as int].key() == c@);
                    }
                    return true;
                }
            }
            j = j + 1;
        }
        false
    }

    fn entry_check(&self, user_id: i64, bundle_key: &str, e: &BundleEntry) -> (r: Option<
        StorageError,
    >)
        requires
            self@.wf(),
        ensures
            r == entry_error(self@, user_id, bundle_key@, *e),
    {
        match e {
            BundleEntry::Bundle { key } => {
                if text_eq(key.as_str(), bundle_key) {
                    Some(StorageError::BundleDepRecursive)
                } else if self.bundle_index(user_id, key.as_str()).is_none() {
                    Some(StorageError::BundleDepBundleNotFound)
                } else if self.leads(user_id, key.as_str(), bundle_key, self.bundle.len()) {
                    Some(StorageError::BundleDepRecursive)
                } else {
                    None
                }
            },
            BundleEntry::Food { key, .. } => {
                if self.food_index(key.as_str()).is_none() {
                    Some(StorageError::BundleDepFoodNotFound)
                } else {
                    None
                }
            },
        }
    }

    /// Writes bundle `bndl` of `user_id` after checking that it does not name itself, that
    /// every nested bundle and food it names exists, and that no nested bundle leads back to
    /// it; a bundle naming itself fails with `BundleDepRecursive`, else the first refused
    /// entry decides the error.
    pub fn set_bundle(&mut self, user_id: i64, bndl: Bundle) -> (r: Result<(), StorageError>)
        requires
            old(self)@.wf(),
        ensures
            final(self)@.wf(),
            set_bundle_outcome(old(self)@, final(self)@, user_id, bndl, r),
    {
        if !bndl.validate() {
            return Err(StorageError::BundleInvalid);
        }
        let mut k: usize = 0;
        while k < bndl.data.len()
            invariant
                k <= bndl.data@.len(),
                self@ == old(self)@,
                old(self)@.wf(),
                bndl.is_valid(),
                forall|j: int|
                    0 <= j < k ==> !((#[trigger] bndl.data@[j] is Bundle) && bndl.data@[j].key()
                        == bndl.key@),
            decreases bndl.data.len() - k,
        {
            if let BundleEntry::Bundle { key: c } = &bndl.data[k] {
                if text_eq(c.as_str(), bndl.key.as_str()) {
                    proof {
                        assert(bndl.data@[k as int] is Bundle && bndl.data@[k as int].key() == bndl.key@);
                    }
                    return Err(StorageError::BundleDepRecursive);
                }
            }
            k = k + 1;
        }
        assert(!names_itself(bndl));
        let mut i: usize = 0;
        while i < bndl.data.len()
            invariant
                i <= bndl.data@.len(),
                self@ == old(self)@,
                old(self)@.wf(),
                bndl.is_valid(),
                !names_itself(bndl),
                forall|j: int|
                    0 <= j < i ==> entry_error(old(self)@, user_id, bndl.key@, #[trigger] bndl.data@[j])
                        is None,
            decreases bndl.data.len() - i,
        {
            if let Some(e) = self.entry_check(user_id, bndl.key.as_str(), &bndl.data[i]) {
                return Err(e);
            }
            i = i + 1;
        }
        let row = BundleBackup { user_id, key: bndl.key, data: bndl.data };
        let ghost rv = row@;
        match self.bundle_index(user_id, row.key.as_str()) {
            Some(i) => {
                self.bundle.set(i, row);
                proof {
                    assert(self@.bundle =~= old(self)@.bundle.update(i as int, rv));
                }
            },
            None => {
                self.bundle.push(row);
                proof {
                    assert(self@.bundle =~= old(self)@.bundle.push(rv));
                }
            },
        }
        Ok(())
    }

    /// Removes the bundle of `user_id` stored under `key`, unless another of the user's
    /// bundles nests it.
    pub fn delete_bundle(&mut self, user_id: i64, key: &str) -> (r: Result<(), StorageError>)
        requires
            old(self)@.wf(),
        ensures
            final(self)@.wf(),
            old(self)@.bundle_in_bundle(user_id, key@) ==> r == Err::<(), StorageError>(
                StorageError::BundleIsUsed,
            ) && final(self)@ == old(self)@,
            !old(self)@.bundle_in_bundle(user_id, key@) ==> r is Ok && removed(
                old(self)@.bundle,
                final(self)@.bundle,
                |b: (i64, Seq<char>, Seq<BundleEntry>)| b.0 == user_id && b.1 == key@,
            ) && final(self)@ == (StoreView { bundle: final(self)@.bundle, ..old(self)@ }),
    {
        let mut i: usize = 0;
        while i < self.bundle.len()
            invariant
                i <= self.bundle@.len(),
                self@ == old(self)@,
                old(self)@.wf(),
                self@.bundle == self.bundle@.map_values(|b: BundleBackup| b@),
                forall|a: int, j: int|
                    0 <= a < i && self@.bundle[a].0 == user_id && 0 <= j < self@.bundle[a].2.len()
                        ==> !(#[trigger] self@.bundle[a].2[j] matches BundleEntry::Bundle { key: k } && k@
                        == key@),
            decreases self.bundle.len() - i,
        {
            if self.bundle[i].user_id == user_id {
                let data = &self.bundle[i].data;
                let mut j: usize = 0;
                while j < data.len()
                    invariant
                        i < self.bundle@.len(),
                        self@ == old(self)@,
                        old(self)@.wf(),
                        self@.bundle[i as int].0 == user_id,
                        j <= data@.len(),
                        data@ == self@.bundle[i as int].2,
                        forall|b: int|
                            0 <= b < j ==> !(#[trigger] data@[b] matches BundleEntry::Bundle {
                                key: k,
                            } && k@ == key@),
                    decreases data.len() - j,
                {
                    if let BundleEntry::Bundle { key: k } = &data[j] {
                        if text_eq(k.as_str(), key) {
                            assert(self@.bundle[i as int].2[j as int] == data@[j as int]);
                            return Err(StorageError::BundleIsUsed);
                        }
                    }
                    j = j + 1;
                }
            }
            i = i + 1;
        }
        match self.bundle_index(user_id, key) {
            Some(i) => {
                self.bundle.remove(i);
                proof {
                    assert(self@.bundle =~= old(self)@.bundle.remove(i as int));
                }
            },
            None => {},
        }
        Ok(())
    }

    fn journal_index(&self, user_id: i64, timestamp: i64, meal: Meal, food_key: &str) -> (r: Option<
        usize,
    >)
        ensures
            match r {
                Some(i) => i < self@.journal.len() && journal_key(self@.journal[i as int]) == (
                    user_id,
                    timestamp,
                    meal,
                    food_key@,
                ),
                None => forall|j: int|
                    0 <= j < self@.journal.len() ==> journal_key(#[trigger] self@.journal[j]) != (
                        user_id,
                        timestamp,
                        meal,
                        food_key@,
                    ),
            },
    {
        let mut i: usize = 0;
        while i < self.journal.len()
            invariant
                i <= self.journal@.len(),
                self@.journal == self.journal@,
                forall|j: int|
                    0 <= j < i ==> journal_key(#[trigger] self@.journal[j]) != (
                        user_id,
                        timestamp,
                        meal,
                        food_key@,
                    ),
            decreases self.journal.len() - i,
        {
            let row = &self.journal[i];
            if row.user_id == user_id && row.timestamp == timestamp && row.meal == meal && text_eq(
                row.food_key.as_str(),
                food_key,
            ) {
                return Some(i);
            }
            i = i + 1;
        }
        None
    }

    /// Writes journal entry `journal` of `user_id`; its food must exist.
    pub fn set_journal(&mut self, user_id: i64, journal: Journal) -> (r: Result<(), StorageError>)
        requires
            old(self)@.wf(),
        ensures
            final(self)@.wf(),
            !journal.is_valid() ==> r == Err::<(), StorageError>(StorageError::JournalInvalid)
                && final(self)@ == old(self)@,
            journal.is_valid() && !old(self)@.has_food(journal.food_key@) ==> r == Err::<
                (),
                StorageError,
            >(StorageError::FoodNotFound) && final(self)@ == old(self)@,
            journal.is_valid() && old(self)@.has_food(journal.food_key@) ==> r is Ok && upserted(
                old(self)@.journal,
                final(self)@.journal,
                JournalBackup {
                    user_id,
                    timestamp: journal.timestamp,
                    meal: journal.meal,
                    food_key: journal.food_key,
                    food_weight: journal.food_weight,
                },
                same_journal(),
            ) && final(self)@ == (StoreView { journal: final(self)@.journal, ..old(self)@ }),
    {
        if !journal.validate() {
            return Err(StorageError::JournalInvalid);
        }
        if self.food_index(journal.food_key.as_str()).is_none() {
            return Err(StorageError::FoodNotFound);
        }
        let row = JournalBackup {
            user_id,
            timestamp: journal.timestamp,
            meal: journal.meal,
            food_key: journal.food_key,
            food_weight: journal.food_weight,
        };
        let ghost x = row;
        self.put_journal(row);
        proof {
            lemma_upsert_with_upserted(old(self)@.journal, x, same_journal());
        }
        Ok(())
    }

    /// Removes the journal entry of `user_id` for food `food_key` at `timestamp` and `meal`.
    pub fn delete_journal(&mut self, user_id: i64, timestamp: i64, meal: Meal, food_key: &str)
        requires
            old(self)@.wf(),
        ensures
            final(self)@.wf(),
            removed(
                old(self)@.journal,
                final(self)@.journal,
                |j: JournalBackup| journal_key(j) == (user_id, timestamp, meal, food_key@),
            ),
            final(self)@ == (StoreView { journal: final(self)@.journal, ..old(self)@ }),
    {
        match self.journal_index(user_id, timestamp, meal, food_key) {
            Some(i) => {
                self.journal.remove(i);
            },
            None => {},
        }
    }

    /// Removes every journal entry of `user_id` at `timestamp` and `meal`.
    pub fn delete_journal_meal(&mut self, user_id: i64, timestamp: i64, meal: Meal)
        requires
            old(self)@.wf(),
        ensures
            final(self)@.wf(),
            final(self)@.journal == journal_without_meal(old(self)@.journal, user_id, timestamp, meal),
            final(self)@ == (StoreView { journal: final(self)@.journal, ..old(self)@ }),
    {
        let mut kept: Vec<JournalBackup> = Vec::new();
        let mut i: usize = 0;
        while i < self.journal.len()
            invariant
                i <= self.journal@.len(),
                self@ == old(self)@,
                old(self)@.wf(),
                kept@ == journal_without_meal(self.journal@.take(i as int), user_id, timestamp, meal),
            decreases self.journal.len() - i,
        {
            let row = &self.journal[i];
            proof {
                assert(self.journal@.take(i + 1).drop_last() =~= self.journal@.take(i as int));
            }
            if !(row.user_id == user_id && row.timestamp == timestamp && row.meal == meal) {
                kept.push(row.clone());
            }
            i = i + 1;
        }
        proof {
            assert(self.journal@.take(self.journal@.len() as int) =~= self.journal@);
            lemma_journal_without_meal(self.journal@, user_id, timestamp, meal);
        }
        self.journal = kept;
    }

    /// The journal of `user_id` from `from` to `to`, both included, joined with the foods,
    /// ordered by time, meal slot and food name.
    pub fn get_journal_report(&self, user_id: i64, from: i64, to: i64) -> (r: Result<
        Vec<JournalReport>,
        StorageError,
    >)
        requires
            self@.wf(),
        ensures
            match r {
                Ok(v) => v@.len() > 0 && v@.to_multiset() == journal_report_rows(
                    self@.journal,
                    self@.food,
                    user_id,
                    from,
                    to,
                ).to_multiset() && sorted_by_rank(v@),
                Err(e) => e == StorageError::EmptyResult && journal_report_rows(
                    self@.journal,
                    self@.food,
                    user_id,
                    from,
                    to,
                ).len() == 0,
            },
    {
        let mut rows: Vec<JournalReport> = Vec::new();
        let mut i: usize = 0;
        while i < self.journal.len()
            invariant
                i <= self.journal@.len(),
                self@.wf(),
                self@.journal == self.journal@,
                self@.food == self.food@,
                rows@ == journal_report_rows(self.journal@.take(i as int), self@.food, user_id, from, to),
            decreases self.journal.len() - i,
        {
            let j = &self.journal[i];
            proof {
                assert(self.journal@.take(i + 1).drop_last() =~= self.journal@.take(i as int));
            }
            if j.user_id == user_id && from <= j.timestamp && j.timestamp <= to {
                match self.food_index(j.food_key.as_str()) {
                    Some(fi) => {
                        let f = &self.food[fi];
                        proof {
                            let c = choose|c: int| 0 <= c < self@.food.len() && #[trigger] self@.food[c].key@ == j.food_key@;
                            assert(c == fi);
                        }
                        rows.push(
                            JournalReport {
                                timestamp: j.timestamp,
                                meal: j.meal,
                                food_key: j.food_key.clone(),
                                food_name: f.name.clone(),
                                food_brand: f.brand.clone(),
                                food_weight: j.food_weight,
                                cal: scale(j.food_weight, f.cal100),
                                prot: scale(j.food_weight, f.prot100),
                                fat: scale(j.food_weight, f.fat100),
                                carb: scale(j.food_weight, f.carb100),
                            },
                        );
                    },
                    None => {},
                }
            }
            i = i + 1;
        }
        proof {
            assert(self.journal@.take(self.journal@.len() as int) =~= self.journal@);
        }
        if rows.len() == 0 {
            return Err(StorageError::EmptyResult);
        }
        let v = sort_by_rank(rows);
        proof {
            v@.to_multiset_ensures();
            rows@.to_multiset_ensures();
        }
        Ok(v)
    }

    /// The mean weight of food `food_key` in the journal of `user_id` from `from` to `to`,
    /// both included, rounded down; 0 when no entry matches.
    pub fn get_journal_food_avg_weight(&self, user_id: i64, food_key: &str, from: i64, to: i64) -> (r:
        i64)
        ensures
            r == mean(eaten_weights(self@.journal, user_id, food_key@, from, to)),
    {
        let mut sum: i128 = 0;
        let mut n: usize = 0;
        let mut i: usize = 0;
        while i < self.journal.len()
            invariant
                i <= self.journal@.len(),
                self@.journal == self.journal@,
                n as int == eaten_weights(self.journal@.take(i as int), user_id, food_key@, from, to).len(),
                sum == total(eaten_weights(self.journal@.take(i as int), user_id, food_key@, from, to)),
                n <= i,
                n * i64::MIN <= sum <= n * i64::MAX,
            decreases self.journal.len() - i,
        {
            let j = &self.journal[i];
            proof {
                assert(self.journal@.take(i + 1).drop_last() =~= self.journal@.take(i as int));
            }
            if j.user_id == user_id && from <= j.timestamp && j.timestamp <= to && text_eq(
                j.food_key.as_str(),
                food_key,
            ) {
                proof {
                    let prev = eaten_weights(self.journal@.take(i as int), user_id, food_key@, from, to);
                    assert(prev.push(j.food_weight).drop_last() =~= prev);
                }
                sum = sum + j.food_weight as i128;
                n = n + 1;
            }
            i = i + 1;
        }
        proof {
            assert(self.journal@.take(self.journal@.len() as int) =~= self.journal@);
        }
        if n == 0 {
            return 0;
        }
        let m = floor_div(sum, n as i128);
        proof {
            let k = n as int;
            lemma_div_is_ordered(sum as int, k * i64::MAX, k);
            lemma_div_is_ordered(k * i64::MIN, sum as int, k);
            lemma_div_multiples_vanish(i64::MAX as int, k);
            lemma_div_multiples_vanish(i64::MIN as int, k);
            assert(k * i64::MAX == i64::MAX * k);
            assert(k * i64::MIN == i64::MIN * k);
        }
        m as i64
    }

    fn activity_index(&self, user_id: i64, timestamp: i64, sport_key: &str) -> (r: Option<usize>)
        ensures
            match r {
                Some(i) => i < self@.sport_activity.len() && self@.sport_activity[i as int].0
                    == user_id && self@.sport_activity[i as int].1 == sport_key@
                    && self@.sport_activity[i as int].2 == timestamp,
                None => forall|j: int|
                    0 <= j < self@.sport_activity.len() ==> !(#[trigger] self@.sport_activity[j].0
                        == user_id && self@.sport_activity[j].1 == sport_key@
                        && self@.sport_activity[j].2 == timestamp),
            },
    {
        let mut i: usize = 0;
        while i < self.sport_activity.len()
            invariant
                i <= self.sport_activity@.len(),
                self@.sport_activity == self.sport_activity@.map_values(
                    |a: SportActivityBackup| a@,
                ),
                forall|j: int|
                    0 <= j < i ==> !(#[trigger] self@.sport_activity[j].0 == user_id
                        && self@.sport_activity[j].1 == sport_key@ && self@.sport_activity[j].2
                        == timestamp),
            decreases self.sport_activity.len() - i,
        {
            let a = &self.sport_activity[i];
            if a.user_id == user_id && a.timestamp == timestamp && text_eq(
                a.sport_key.as_str(),
                sport_key,
            ) {
                return Some(i);
            }
            i = i + 1;
        }
        None
    }

    /// Writes activity record `act` of `user_id`; its sport must exist.
    pub fn set_sport_activity(&mut self, user_id: i64, act: SportActivity) -> (r: Result<
        (),
        StorageError,
    >)
        requires
            old(self)@.wf(),
        ensures
            final(self)@.wf(),
            !act.is_valid() ==> r == Err::<(), StorageError>(StorageError::SportActivityInvalid)
                && final(self)@ == old(self)@,
            act.is_valid() && !old(self)@.has_sport(act.sport_key@) ==> r == Err::<(), StorageError>(
                StorageError::SportInvalid,
            ) && final(self)@ == old(self)@,
            act.is_valid() && old(self)@.has_sport(act.sport_key@) ==> r is Ok && upserted(
                old(self)@.sport_activity,
                final(self)@.sport_activity,
                (user_id, act.sport_key@, act.timestamp, act.sets@),
                same_activity(),
            ) && final(self)@ == (StoreView {
                sport_activity: final(self)@.sport_activity,
                ..old(self)@
            }),
    {
        if !act.validate() {
            return Err(StorageError::SportActivityInvalid);
        }
        if self.sport_index(act.sport_key.as_str()).is_none() {
            return Err(StorageError::SportInvalid);
        }
        let row = SportActivityBackup {
            user_id,
            sport_key: act.sport_key,
            timestamp: act.timestamp,
            sets: act.sets,
        };
        let ghost rv = row@;
        match self.activity_index(user_id, row.timestamp, row.sport_key.as_str()) {
            Some(i) => {
                self.sport_activity.set(i, row);
                proof {
                    assert(self@.sport_activity =~= old(self)@.sport_activity.update(i as int, rv));
                }
            },
            None => {
                self.sport_activity.push(row);
                proof {
                    assert(self@.sport_activity =~= old(self)@.sport_activity.push(rv));
                }
            },
        }
        Ok(())
    }

    /// Removes the activity record of `user_id` for sport `sport_key` at `timestamp`.
    pub fn delete_sport_activity(&mut self, user_id: i64, timestamp: i64, sport_key: &str)
        requires
            old(self)@.wf(),
        ensures
            final(self)@.wf(),
            removed(
                old(self)@.sport_activity,
                final(self)@.sport_activity,
                |a: (i64, Seq<char>, i64, Seq<i64>)|
                    a.0 == user_id && a.1 == sport_key@ && a.2 == timestamp,
            ),
            final(self)@ == (StoreView {
                sport_activity: final(self)@.sport_activity,
                ..old(self)@
            }),
    {
        match self.activity_index(user_id, timestamp, sport_key) {
            Some(i) => {
                self.sport_activity.remove(i);
                proof {
                    assert(self@.sport_activity =~= old(self)@.sport_activity.remove(i as int));
                }
            },
            None => {},
        }
    }

    /// The activity records of `user_id` from `from` to `to`, both included, with their
    /// sport names, ordered by time and sport name.
    pub fn get_sport_activity_report(&self, user_id: i64, from: i64, to: i64) -> (r: Result<
        Vec<SportActivityReport>,
        StorageError,
    >)
        requires
            self@.wf(),
        ensures
            match r {
                Ok(v) => v@.len() > 0 && v@.map_values(|a: SportActivityReport| a@).to_multiset()
                    == activity_report_rows(
                    self@.sport_activity,
                    self@.sport,
                    user_id,
                    from,
                    to,
                ).to_multiset() && sorted_by_rank(v@),
                Err(e) => e == StorageError::EmptyResult && activity_report_rows(
                    self@.sport_activity,
                    self@.sport,
                    user_id,
                    from,
                    to,
                ).len() == 0,
            },
    {
        let mut rows: Vec<SportActivityReport> = Vec::new();
        let mut i: usize = 0;
        while i < self.sport_activity.len()
            invariant
                i <= self.sport_activity@.len(),
                self@.wf(),
                self@.sport_activity == self.sport_activity@.map_values(
                    |a: SportActivityBackup| a@,
                ),
                self@.sport == self.sport@,
                rows@.map_values(|a: SportActivityReport| a@) == activity_report_rows(
                    self@.sport_activity.take(i as int),
                    self@.sport,
                    user_id,
                    from,
                    to,
                ),
            decreases self.sport_activity.len() - i,
        {
            let a = &self.sport_activity[i];
            let ghost before = rows@;
            proof {
                assert(self@.sport_activity.take(i + 1).drop_last() =~= self@.sport_activity.take(
                    i as int,
                ));
            }
            if a.user_id == user_id && from <= a.timestamp && a.timestamp <= to {
                match self.sport_index(a.sport_key.as_str()) {
                    Some(si) => {
                        proof {
                            let c = choose|c: int| 0 <= c < self@.sport.len() && #[trigger] self@.sport[c].key@ == a.sport_key@;
                            assert(c == si);
                        }
                        let sets = clone_sets(&a.sets);
                        rows.push(
                            SportActivityReport {
                                sport_name: self.sport[si].name.clone(),
                                timestamp: a.timestamp,
                                sets,
                            },
                        );
                        proof {
                            assert(rows@.map_values(|a: SportActivityReport| a@) =~= before.map_values(
                                |a: SportActivityReport| a@,
                            ).push((self@.sport[si as int].name@, a.timestamp, a.sets@)));
                        }
                    },
                    None => {},
                }
            }
            i = i + 1;
        }
        proof {
            assert(self@.sport_activity.take(self@.sport_activity.len() as int) =~= self@.sport_activity);
        }
        if rows.len() == 0 {
            return Err(StorageError::EmptyResult);
        }
        let v = sort_by_rank(rows);
        proof {
            lemma_map_multiset(v@, rows@, |a: SportActivityReport| a@);
            v@.to_multiset_ensures();
            rows@.to_multiset_ensures();
        }
        Ok(v)
    }

    fn check_paths(&self, user_id: i64, key: &str, fuel: usize) -> (r: Option<StorageError>)
        requires
            self@.wf(),
        ensures
            r == path_fault(self@, user_id, key@, fuel as nat),
        decreases fuel,
    {
        let bi = match self.bundle_index(user_id, key) {
            Some(bi) => bi,
            None => {
                return Some(StorageError::BundleNotFound);
            },
        };
        let ghost v = self@;
        proof {
            assert(v.has_bundle(user_id, key@));
            let c = choose|c: int|
                0 <= c < v.bundle.len() && #[trigger] v.bundle[c].0 == user_id && v.bundle[c].1 == key@;
            assert(c == bi);
        }
        if fuel == 0 {
            return Some(StorageError::BundleDepRecursive);
        }
        let data = &self.bundle[bi].data;
        let ghost d = data@;
        let ghost f = (fuel - 1) as nat;
        assert(d == bundle_data(v, user_id, key@));
        let mut j: usize = 0;
        while j < data.len()
            invariant
                v == self@,
                v.wf(),
                fuel > 0,
                f == fuel - 1,
                d == data@,
                d == bundle_data(v, user_id, key@),
                v.has_bundle(user_id, key@),
                j <= d.len(),
                entries_fault(v, user_id, d, f, j as nat) is None,
            decreases d.len() - j,
        {
            let fault = match &data[j] {
                BundleEntry::Food { key: k, .. } => {
                    if self.food_index(k.as_str()).is_none() {
                        Some(StorageError::FoodNotFound)
                    } else {
                        None
                    }
                },
                BundleEntry::Bundle { key: c } => self.check_paths(user_id, c.as_str(), fuel - 1),
            };
            proof {
                assert(entries_fault(v, user_id, d, f, (j + 1) as nat) == fault);
            }
            if fault.is_some() {
                proof {
                    lemma_fault_sticks(v, user_id, d, f, (j + 1) as nat, d.len());
                }
                return fault;
            }
            j = j + 1;
        }
        None
    }

    fn add_paths(
        &self,
        user_id: i64,
        key: &str,
        fuel: usize,
        t: &mut Vec<(String, i64)>,
        Ghost(st): Ghost<Seq<(Seq<char>, i64)>>,
    ) -> (ok: bool)
        requires
            self@.wf(),
            totals_of(old(t)@, st),
        ensures
            ok ==> totals_of(final(t)@, st + path_stream(self@, user_id, key@, fuel as nat)),
            !ok ==> overflows(st + path_stream(self@, user_id, key@, fuel as nat), st.len() as int),
        decreases fuel,
    {
        let ghost v = self@;
        if fuel == 0 {
            assert(st + path_stream(v, user_id, key@, fuel as nat) =~= st);
            return true;
        }
        let bi = match self.bundle_index(user_id, key) {
            Some(bi) => bi,
            None => {
                assert(st + path_stream(v, user_id, key@, fuel as nat) =~= st);
                return true;
            },
        };
        proof {
            assert(v.has_bundle(user_id, key@));
            let c = choose|c: int|
                0 <= c < v.bundle.len() && #[trigger] v.bundle[c].0 == user_id && v.bundle[c].1 == key@;
            assert(c == bi);
        }
        let data = &self.bundle[bi].data;
        let ghost d = data@;
        let ghost f = (fuel - 1) as nat;
        let ghost x = st + path_stream(v, user_id, key@, fuel as nat);
        assert(d == bundle_data(v, user_id, key@));
        assert(path_stream(v, user_id, key@, fuel as nat) == entries_stream(v, user_id, d, f, d.len()));
        let mut j: usize = 0;
        assert(st + entries_stream(v, user_id, d, f, 0) =~= st);
        while j < data.len()
            invariant
                v == self@,
                v.wf(),
                fuel > 0,
                f == fuel - 1,
                d == data@,
                x == st + entries_stream(v, user_id, d, f, d.len()),
                x == st + path_stream(v, user_id, key@, fuel as nat),
                j <= d.len(),
                totals_of(t@, st + entries_stream(v, user_id, d, f, j as nat)),
            decreases d.len() - j,
        {
            let ghost cur = st + entries_stream(v, user_id, d, f, j as nat);
            let ghost nxt = st + entries_stream(v, user_id, d, f, (j + 1) as nat);
            proof {
                lemma_entries_prefix(v, user_id, d, f, (j + 1) as nat, d.len());
                assert(nxt == x.take(nxt.len() as int)) by {
                    let e = entries_stream(v, user_id, d, f, d.len());
                    let e1 = entries_stream(v, user_id, d, f, (j + 1) as nat);
                    assert(x.take(nxt.len() as int) =~= st + e.take(e1.len() as int));
                }
                assert(cur.len() <= nxt.len());
            }
            let ok = match &data[j] {
                BundleEntry::Food { key: k, weight: w } => {
                    let ok = add_amount(t, k, *w, Ghost(cur));
                    proof {
                        assert(nxt =~= cur.push((k@, *w)));
                        if !ok {
                            lemma_amount_push(cur, (k@, *w), k@);
                            let n = nxt.len() as int;
                            assert(x.take(n) == nxt);
                            assert(nxt.take(n) =~= nxt);
                            assert(!(i64::MIN <= amount(x.take(n), k@) <= i64::MAX));
                            assert(st.len() < n <= x.len());
                            assert(overflows(x, st.len() as int));
                        }
                    }
                    ok
                },
                BundleEntry::Bundle { key: c } => {
                    let ok = self.add_paths(user_id, c.as_str(), fuel - 1, t, Ghost(cur));
                    proof {
                        assert(nxt =~= cur + path_stream(v, user_id, c@, f));
                        if !ok {
                            let (k, g) = choose|k: int, g: Seq<char>|
                                cur.len() < k <= nxt.len() && !(i64::MIN <= #[trigger] amount(
                                    nxt.take(k),
                                    g,
                                ) <= i64::MAX);
                            assert(x.take(k) =~= nxt.take(k));
                            assert(!(i64::MIN <= amount(x.take(k), g) <= i64::MAX));
                            assert(st.len() < k <= x.len());
                            assert(overflows(x, st.len() as int));
                        }
                    }
                    ok
                },
            };
            if !ok {
                return false;
            }
            j = j + 1;
        }
        true
    }

    /// Expands bundle `key` of `user_id` into the total weight of each food it holds over
    /// every path of nested bundles: a bundle nested under two parents adds its foods once
    /// per parent. A missing bundle or food, or nesting deeper than the number of stored
    /// bundles, is reported first; a total that leaves `i64` gives `Unknown`.
    pub fn resolve_bundle(&self, user_id: i64, key: &str) -> (r: Result<Vec<(String, i64)>, StorageError>)
        requires
            self@.wf(),
        ensures
            resolved(self@, user_id, key@, r),
    {
        let fuel = self.bundle.len();
        if let Some(e) = self.check_paths(user_id, key, fuel) {
            return Err(e);
        }
        let mut t: Vec<(String, i64)> = Vec::new();
        let ghost empty = Seq::<(Seq<char>, i64)>::empty();
        let ok = self.add_paths(user_id, key, fuel, &mut t, Ghost(empty));
        proof {
            assert(empty + path_stream(self@, user_id, key@, fuel as nat) =~= path_stream(
                self@,
                user_id,
                key@,
                fuel as nat,
            ));
        }
        if !ok {
            return Err(StorageError::Unknown);
        }
        Ok(t)
    }

    fn put_weight(&mut self, row: WeightBackup)
        requires
            old(self)@.wf(),
        ensures
            final(self)@.wf(),
            final(self)@ == (StoreView {
                weight: upsert_with(old(self)@.weight, row, same_weight()),
                ..old(self)@
            }),
    {
        let ghost x = row;
        proof {
            lemma_key_relations(old(self)@);
        }
        match self.weight_index(row.user_id, row.timestamp) {
            Some(i) => {
                self.weight.set(i, row);
                proof {
                    assert(self@.weight =~= old(self)@.weight.update(i as int, x));
                }
            },
            None => {
                self.weight.push(row);
                proof {
                    assert(self@.weight =~= old(self)@.weight.push(x));
                }
            },
        }
        proof {
            lemma_upserted_is(old(self)@.weight, self@.weight, x, same_weight());
            lemma_upsert_unique(old(self)@.weight, x, same_weight());
            lemma_key_relations(self@);
        }
    }

    fn put_food(&mut self, row: Food)
        requires
            old(self)@.wf(),
        ensures
            final(self)@.wf(),
            final(self)@ == (StoreView {
                food: upsert_with(old(self)@.food, row, same_food()),
                ..old(self)@
            }),
    {
        let ghost x = row;
        proof {
            lemma_key_relations(old(self)@);
        }
        match self.food_index(row.key.as_str()) {
            Some(i) => {
                self.food.set(i, row);
                proof {
                    assert(self@.food =~= old(self)@.food.update(i as int, x));
                }
            },
            None => {
                self.food.push(row);
                proof {
                    assert(self@.food =~= old(self)@.food.push(x));
                }
            },
        }
        proof {
            lemma_upserted_is(old(self)@.food, self@.food, x, same_food());
            lemma_upsert_unique(old(self)@.food, x, same_food());
            lemma_key_relations(self@);
        }
    }

    fn put_user_settings(&mut self, row: UserSettingsBackup)
        requires
            old(self)@.wf(),
        ensures
            final(self)@.wf(),
            final(self)@ == (StoreView {
                user_settings: upsert_with(old(self)@.user_settings, row, same_settings()),
                ..old(self)@
            }),
    {
        let ghost x = row;
        proof {
            lemma_key_relations(old(self)@);
        }
        match self.settings_index(row.user_id) {
            Some(i) => {
                self.user_settings.set(i, row);
                proof {
                    assert(self@.user_settings =~= old(self)@.user_settings.update(i as int, x));
                }
            },
            None => {
                self.user_settings.push(row);
                proof {
                    assert(self@.user_settings =~= old(self)@.user_settings.push(x));
                }
            },
        }
        proof {
            lemma_upserted_is(old(self)@.user_settings, self@.user_settings, x, same_settings());
            lemma_upsert_unique(old(self)@.user_settings, x, same_settings());
            lemma_key_relations(self@);
        }
    }

    fn put_bundle(&mut self, row: BundleBackup)
        requires
            old(self)@.wf(),
        ensures
            final(self)@.wf(),
            final(self)@ == (StoreView {
                bundle: upsert_with(old(self)@.bundle, row@, same_bundle()),
                ..old(self)@
            }),
    {
        let ghost x = row@;
        proof {
            lemma_key_relations(old(self)@);
        }
        match self.bundle_index(row.user_id, row.key.as_str()) {
            Some(i) => {
                self.bundle.set(i, row);
                proof {
                    assert(self@.bundle =~= old(self)@.bundle.update(i as int, x));
                }
            },
            None => {
                self.bundle.push(row);
                proof {
                    assert(self@.bundle =~= old(self)@.bundle.push(x));
                }
            },
        }
        proof {
            lemma_upserted_is(old(self)@.bundle, self@.bundle, x, same_bundle());
            lemma_upsert_unique(old(self)@.bundle, x, same_bundle());
            lemma_key_relations(self@);
        }
    }

    fn put_journal(&mut self, row: JournalBackup)
        requires
            old(self)@.wf(),
        ensures
            final(self)@.wf(),
            final(self)@ == (StoreView {
                journal: upsert_with(old(self)@.journal, row, same_journal()),
                ..old(self)@
            }),
    {
        let ghost x = row;
        proof {
            lemma_key_relations(old(self)@);
        }
        match self.journal_index(row.user_id, row.timestamp, row.meal, row.food_key.as_str()) {
            Some(i) => {
                self.journal.set(i, row);
                proof {
                    assert(self@.journal =~= old(self)@.journal.update(i as int, x));
                }
            },
            None => {
                self.journal.push(row);
                proof {
                    assert(self@.journal =~= old(self)@.journal.push(x));
                }
            },
        }
        proof {
            lemma_upserted_is(old(self)@.journal, self@.journal, x, same_journal());
            lemma_upsert_unique(old(self)@.journal, x, same_journal());
            lemma_key_relations(self@);
        }
    }

    fn put_sport(&mut self, row: Sport)
        requires
            old(self)@.wf(),
        ensures
            final(self)@.wf(),
            final(self)@ == (StoreView {
                sport: upsert_with(old(self)@.sport, row, same_sport()),
                ..old(self)@
            }),
    {
        let ghost x = row;
        proof {
            lemma_key_relations(old(self)@);
        }
        match self.sport_index(row.key.as_str()) {
            Some(i) => {
                self.sport.set(i, row);
                proof {
                    assert(self@.sport =~= old(self)@.sport.update(i as int, x));
                }
            },
            None => {
                self.sport.push(row);
                proof {
                    assert(self@.sport =~= old(self)@.sport.push(x));
                }
            },
        }
        proof {
            lemma_upserted_is(old(self)@.sport, self@.sport, x, same_sport());
            lemma_upsert_unique(old(self)@.sport, x, same_sport());
            lemma_key_relations(self@);
        }
    }

    fn put_sport_activity(&mut self, row: SportActivityBackup)
        requires
            old(self)@.wf(),
        ensures
            final(self)@.wf(),
            final(self)@ == (StoreView {
                sport_activity: upsert_with(old(self)@.sport_activity, row@, same_activity()),
                ..old(self)@
            }),
    {
        let ghost x = row@;
        proof {
            lemma_key_relations(old(self)@);
        }
        match self.activity_index(row.user_id, row.timestamp, row.sport_key.as_str()) {
            Some(i) => {
                self.sport_activity.set(i, row);
                proof {
                    assert(self@.sport_activity =~= old(self)@.sport_activity.update(i as int, x));
                }
            },
            None => {
                self.sport_activity.push(row);
                proof {
                    assert(self@.sport_activity =~= old(self)@.sport_activity.push(x));
                }
            },
        }
        proof {
            lemma_upserted_is(old(self)@.sport_activity, self@.sport_activity, x, same_activity());
            lemma_upsert_unique(old(self)@.sport_activity, x, same_activity());
            lemma_key_relations(self@);
        }
    }

    /// Writes every row of `backup` into the store, family by family in dependency order:
    /// weight, food, user settings, bundle, journal, sport, sport activity. Rows are written
    /// as they are, without validation, and rows absent from the snapshot stay.
    pub fn restore(&mut self, backup: &Backup)
        requires
            old(self)@.wf(),
        ensures
            final(self)@.wf(),
            final(self)@ == restored(old(self)@, backup@),
    {
        let ghost start = self@;
        let mut i: usize = 0;
        while i < backup.weight.len()
            invariant
                self@.wf(),
                i <= backup.weight@.len(),
                self@ == (StoreView {
                    weight: upsert_all(start.weight, (backup.weight@).take(i as int), same_weight()),
                    ..start
                }),
            decreases backup.weight.len() - i,
        {
            proof {
                assert((backup.weight@).take(i + 1).drop_last() =~= (backup.weight@).take(i as int));
            }
            self.put_weight(backup.weight[i].clone());
            i = i + 1;
        }
        proof {
            assert((backup.weight@).take(backup.weight@.len() as int) =~= backup.weight@);
        }
        let ghost after_weight = self@;
        let mut i: usize = 0;
        while i < backup.food.len()
            invariant
                self@.wf(),
                i <= backup.food@.len(),
                self@ == (StoreView {
                    food: upsert_all(after_weight.food, (backup.food@).take(i as int), same_food()),
                    ..after_weight
                }),
            decreases backup.food.len() - i,
        {
            proof {
                assert((backup.food@).take(i + 1).drop_last() =~= (backup.food@).take(i as int));
            }
            self.put_food(backup.food[i].clone());
            i = i + 1;
        }
        proof {
            assert((backup.food@).take(backup.food@.len() as int) =~= backup.food@);
        }
        let ghost after_food = self@;
        let mut i: usize = 0;
        while i < backup.user_settings.len()
            invariant
                self@.wf(),
                i <= backup.user_settings@.len(),
                self@ == (StoreView {
                    user_settings: upsert_all(after_food.user_settings, (backup.user_settings@).take(i as int), same_settings()),
                    ..after_food
                }),
            decreases backup.user_settings.len() - i,
        {
            proof {
                assert((backup.user_settings@).take(i + 1).drop_last() =~= (backup.user_settings@).take(i as int));
            }
            self.put_user_settings(backup.user_settings[i].clone());
            i = i + 1;
        }
        proof {
            assert((backup.user_settings@).take(backup.user_settings@.len() as int) =~= backup.user_settings@);
        }
        let ghost after_user_settings = self@;
        let mut i: usize = 0;
        while i < backup.bundle.len()
            invariant
                self@.wf(),
                i <= backup.bundle@.len(),
                self@ == (StoreView {
                    bundle: upsert_all(after_user_settings.bundle, (backup.bundle@.map_values(|r: BundleBackup| r@)).take(i as int), same_bundle()),
                    ..after_user_settings
                }),
            decreases backup.bundle.len() - i,
        {
            proof {
                assert((backup.bundle@.map_values(|r: BundleBackup| r@)).take(i + 1).drop_last() =~= (backup.bundle@.map_values(|r: BundleBackup| r@)).take(i as int));
            }
            self.put_bundle(backup.bundle[i].clone());
            i = i + 1;
        }
        proof {
            assert((backup.bundle@.map_values(|r: BundleBackup| r@)).take(backup.bundle@.len() as int) =~= backup.bundle@.map_values(|r: BundleBackup| r@));
        }
        let ghost after_bundle = self@;
        let mut i: usize = 0;
        while i < backup.journal.len()
            invariant
                self@.wf(),
                i <= backup.journal@.len(),
                self@ == (StoreView {
                    journal: upsert_all(after_bundle.journal, (backup.journal@).take(i as int), same_journal()),
                    ..after_bundle
                }),
            decreases backup.journal.len() - i,
        {
            proof {
                assert((backup.journal@).take(i + 1).drop_last() =~= (backup.journal@).take(i as int));
            }
            self.put_journal(backup.journal[i].clone());
            i = i + 1;
        }
        proof {
            assert((backup.journal@).take(backup.journal@.len() as int) =~= backup.journal@);
        }
        let ghost after_journal = self@;
        let mut i: usize = 0;
        while i < backup.sport.len()
            invariant
                self@.wf(),
                i <= backup.sport@.len(),
                self@ == (StoreView {
                    sport: upsert_all(after_journal.sport, (backup.sport@).take(i as int), same_sport()),
                    ..after_journal
                }),
            decreases backup.sport.len() - i,
        {
            proof {
                assert((backup.sport@).take(i + 1).drop_last() =~= (backup.sport@).take(i as int));
            }
            self.put_sport(backup.sport[i].clone());
            i = i + 1;
        }
        proof {
            assert((backup.sport@).take(backup.sport@.len() as int) =~= backup.sport@);
        }
        let ghost after_sport = self@;
        let mut i: usize = 0;
        while i < backup.sport_activity.len()
            invariant
                self@.wf(),
                i <= backup.sport_activity@.len(),
                self@ == (StoreView {
                    sport_activity: upsert_all(after_sport.sport_activity, (backup.sport_activity@.map_values(|r: SportActivityBackup| r@)).take(i as int), same_activity()),
                    ..after_sport
                }),
            decreases backup.sport_activity.len() - i,
        {
            proof {
                assert((backup.sport_activity@.map_values(|r: SportActivityBackup| r@)).take(i + 1).drop_last() =~= (backup.sport_activity@.map_values(|r: SportActivityBackup| r@)).take(i as int));
            }
            self.put_sport_activity(backup.sport_activity[i].clone());
            i = i + 1;
        }
        proof {
            assert((backup.sport_activity@.map_values(|r: SportActivityBackup| r@)).take(backup.sport_activity@.len() as int) =~= backup.sport_activity@.map_values(|r: SportActivityBackup| r@));
        }
        let ghost after_sport_activity = self@;
    }

    /// A snapshot of the whole store taken at `timestamp`, every family ordered by natural key.
    pub fn backup(&self, timestamp: i64) -> (r: Backup)
        ensures
            r.timestamp == timestamp,
            snapshot_of(r, self@),
    {
        let mut all_weight: Vec<WeightBackup> = Vec::new();
        let mut i: usize = 0;
        while i < self.weight.len()
            invariant
                i <= self.weight@.len(),
                self@.weight == self.weight@,
                all_weight@ == self.weight@.take(i as int),
            decreases self.weight.len() - i,
        {
            all_weight.push(self.weight[i]);
            proof {
                assert(self.weight@.take(i + 1) =~= self.weight@.take(i as int).push(self.weight@[i as int]));
            }
            i = i + 1;
        }
        proof {
            assert(self.weight@.take(self.weight@.len() as int) =~= self.weight@);
        }
        let mut all_food: Vec<Food> = Vec::new();
        let mut i: usize = 0;
        while i < self.food.len()
            invariant
                i <= self.food@.len(),
                self@.food == self.food@,
                all_food@ == self.food@.take(i as int),
            decreases self.food.len() - i,
        {
            all_food.push(self.food[i].clone());
            proof {
                assert(self.food@.take(i + 1) =~= self.food@.take(i as int).push(self.food@[i as int]));
            }
            i = i + 1;
        }
        proof {
            assert(self.food@.take(self.food@.len() as int) =~= self.food@);
        }
        let mut all_user_settings: Vec<UserSettingsBackup> = Vec::new();
        let mut i: usize = 0;
        while i < self.user_settings.len()
            invariant
                i <= self.user_settings@.len(),
                self@.user_settings == self.user_settings@,
                all_user_settings@ == self.user_settings@.take(i as int),
            decreases self.user_settings.len() - i,
        {
            all_user_settings.push(self.user_settings[i]);
            proof {
                assert(self.user_settings@.take(i + 1) =~= self.user_settings@.take(i as int).push(self.user_settings@[i as int]));
            }
            i = i + 1;
        }
        proof {
            assert(self.user_settings@.take(self.user_settings@.len() as int) =~= self.user_settings@);
        }
        let mut all_bundle: Vec<BundleBackup> = Vec::new();
        let mut i: usize = 0;
        while i < self.bundle.len()
            invariant
                i <= self.bundle@.len(),
                self@.bundle == self.bundle@.map_values(|r: BundleBackup| r@),
                all_bundle@.map_values(|r: BundleBackup| r@) == self@.bundle.take(i as int),
            decreases self.bundle.len() - i,
        {
            let ghost before = all_bundle@;
            all_bundle.push(self.bundle[i].clone());
            proof {
                assert(all_bundle@.map_values(|r: BundleBackup| r@) =~= before.map_values(|r: BundleBackup| r@).push(self@.bundle[i as int]));
                assert(self@.bundle.take(i + 1) =~= self@.bundle.take(i as int).push(self@.bundle[i as int]));
            }
            i = i + 1;
        }
        proof {
            assert(self@.bundle.take(self@.bundle.len() as int) =~= self@.bundle);
        }
        let mut all_journal: Vec<JournalBackup> = Vec::new();
        let mut i: usize = 0;
        while i < self.journal.len()
            invariant
                i <= self.journal@.len(),
                self@.journal == self.journal@,
                all_journal@ == self.journal@.take(i as int),
            decreases self.journal.len() - i,
        {
            all_journal.push(self.journal[i].clone());
            proof {
                assert(self.journal@.take(i + 1) =~= self.journal@.take(i as int).push(self.journal@[i as int]));
            }
            i = i + 1;
        }
        proof {
            assert(self.journal@.take(self.journal@.len() as int) =~= self.journal@);
        }
        let mut all_sport: Vec<Sport> = Vec::new();
        let mut i: usize = 0;
        while i < self.sport.len()
            invariant
                i <= self.sport@.len(),
                self@.sport == self.sport@,
                all_sport@ == self.sport@.take(i as int),
            decreases self.sport.len() - i,
        {
            all_sport.push(self.sport[i].clone());
            proof {
                assert(self.sport@.take(i + 1) =~= self.sport@.take(i as int).push(self.sport@[i as int]));
            }
            i = i + 1;
        }
        proof {
            assert(self.sport@.take(self.sport@.len() as int) =~= self.sport@);
        }
        let mut all_sport_activity: Vec<SportActivityBackup> = Vec::new();
        let mut i: usize = 0;
        while i < self.sport_activity.len()
            invariant
                i <= self.sport_activity@.len(),
                self@.sport_activity == self.sport_activity@.map_values(|r: SportActivityBackup| r@),
                all_sport_activity@.map_values(|r: SportActivityBackup| r@) == self@.sport_activity.take(i as int),
            decreases self.sport_activity.len() - i,
        {
            let ghost before = all_sport_activity@;
            all_sport_activity.push(self.sport_activity[i].clone());
            proof {
                assert(all_sport_activity@.map_values(|r: SportActivityBackup| r@) =~= before.map_values(|r: SportActivityBackup| r@).push(self@.sport_activity[i as int]));
                assert(self@.sport_activity.take(i + 1) =~= self@.sport_activity.take(i as int).push(self@.sport_activity[i as int]));
            }
            i = i + 1;
        }
        proof {
            assert(self@.sport_activity.take(self@.sport_activity.len() as int) =~= self@.sport_activity);
        }
        let weight = sort_by_key_order(all_weight);
        let food = sort_by_key_order(all_food);
        let user_settings = sort_by_key_order(all_user_settings);
        let bundle = sort_by_key_order(all_bundle);
        let journal = sort_by_key_order(all_journal);
        let sport = sort_by_key_order(all_sport);
        let sport_activity = sort_by_key_order(all_sport_activity);
        proof {
            lemma_map_multiset(bundle@, all_bundle@, |r: BundleBackup| r@);
            lemma_map_multiset(sport_activity@, all_sport_activity@, |r: SportActivityBackup| r@);
        }
        Backup { timestamp, weight, food, user_settings, bundle, journal, sport, sport_activity }
    }

    /// Journals bundle `bndl_key` of `user_id` at `timestamp` and `meal`: one entry per food
    /// of its expansion, with the food's total weight. Nothing is written when the expansion
    /// fails.
    pub fn set_journal_bundle(&mut self, user_id: i64, timestamp: i64, meal: Meal, bndl_key: &str) -> (r:
        Result<(), StorageError>)
        requires
            old(self)@.wf(),
        ensures
            final(self)@.wf(),
            match r {
                Ok(_) => exists|t: Vec<(String, i64)>|
                    resolved(old(self)@, user_id, bndl_key@, Ok(t)) && final(self)@ == (StoreView {
                        journal: upsert_all(
                            old(self)@.journal,
                            bundle_journal_rows(t@, user_id, timestamp, meal),
                            same_journal(),
                        ),
                        ..old(self)@
                    }),
                Err(e) => resolved(old(self)@, user_id, bndl_key@, Err(e)) && final(self)@ == old(
                    self,
                )@,
            },
    {
        let t = match self.resolve_bundle(user_id, bndl_key) {
            Ok(t) => t,
            Err(e) => {
                return Err(e);
            },
        };
        let ghost start = self@;
        let ghost rows = bundle_journal_rows(t@, user_id, timestamp, meal);
        let mut i: usize = 0;
        while i < t.len()
            invariant
                self@.wf(),
                i <= t@.len(),
                rows == bundle_journal_rows(t@, user_id, timestamp, meal),
                self@ == (StoreView {
                    journal: upsert_all(start.journal, rows.take(i as int), same_journal()),
                    ..start
                }),
            decreases t.len() - i,
        {
            proof {
                assert(rows.take(i + 1).drop_last() =~= rows.take(i as int));
            }
            let row = JournalBackup {
                user_id,
                timestamp,
                meal,
                food_key: t[i].0.clone(),
                food_weight: t[i].1,
            };
            assert(row == rows[i as int]);
            self.put_journal(row);
            i = i + 1;
        }
        proof {
            assert(rows.take(t@.len() as int) =~= rows);
        }
        Ok(())
    }
}

} // verus!
