use crate::error::StorageError;
use crate::model::{Bundle, BundleEntry, Food};
use crate::backup::Backup;
use crate::store::{
    leads_to, names_itself,
    lemma_reorder_unique, same_activity, same_bundle, same_journal, same_settings, same_sport,
    same_weight, snapshot_of,
    StoreView, amount, bundle_data, delete_food_outcome, delete_sport_outcome, entry_error,
    entries_stream, get_food_outcome, key_relation, lemma_key_relations, path_fault, path_stream,
    lemma_upsert_all_into_empty, resolved, restored, same_food, set_bundle_outcome,
    set_food_outcome,
};
use vstd::prelude::*;

verus! {

/// Writing a valid food and then reading its key gives back exactly that food, whatever row
/// the key held before: a second write replaces every field of the first.
pub proof fn law_food_write_read(
    old: StoreView,
    new: StoreView,
    f: Food,
    written: Result<(), StorageError>,
    read: Result<Food, StorageError>,
)
    requires
        old.wf(),
        new.wf(),
        f.is_valid(),
        set_food_outcome(old, new, f, written),
        get_food_outcome(new, f.key@, read),
    ensures
        written is Ok,
        read == Ok::<Food, StorageError>(f),
{
    let p = choose|p: int| 0 <= p < new.food.len() && new.food[p] == f;
    assert(new.food.contains(f)) by {
        if exists|i: int| 0 <= i < old.food.len() && same_food()(#[trigger] old.food[i], f) && new.food
            == old.food.update(i, f) {
            let i = choose|i: int|
                0 <= i < old.food.len() && same_food()(#[trigger] old.food[i], f) && new.food
                    == old.food.update(i, f);
            assert(new.food[i] == f);
        } else {
            assert(new.food[old.food.len() as int] == f);
        }
    }
    let q = choose|q: int| 0 <= q < new.food.len() && new.food[q] == f;
    assert(new.has_food(f.key@)) by {
        assert(new.food[q].key@ == f.key@);
    }
    if let Ok(g) = read {
        let a = choose|a: int| 0 <= a < new.food.len() && new.food[a] == g;
        if a != q {
            if a < q {
                assert(new.food[a].key@ != new.food[q].key@);
            } else {
                assert(new.food[q].key@ != new.food[a].key@);
            }
        }
    }
}

/// Writing a valid bundle that names a missing food fails with `BundleDepFoodNotFound` and
/// stores nothing, when every entry the write refuses names a missing food.
pub proof fn law_bundle_missing_food(
    old: StoreView,
    new: StoreView,
    user_id: i64,
    b: Bundle,
    r: Result<(), StorageError>,
)
    requires
        b.is_valid(),
        set_bundle_outcome(old, new, user_id, b, r),
        exists|i: int|
            0 <= i < b.data@.len() && (#[trigger] b.data@[i] is Food) && !old.has_food(
                b.data@[i].key(),
            ),
        forall|i: int|
            0 <= i < b.data@.len() ==> (entry_error(old, user_id, b.key@, #[trigger] b.data@[i]) is None
                || entry_error(old, user_id, b.key@, b.data@[i]) == Some(
                StorageError::BundleDepFoodNotFound,
            )),
    ensures
        r == Err::<(), StorageError>(StorageError::BundleDepFoodNotFound),
        new == old,
        !old.has_bundle(user_id, b.key@) ==> !new.has_bundle(user_id, b.key@),
{
    let i = choose|i: int|
        0 <= i < b.data@.len() && (#[trigger] b.data@[i] is Food) && !old.has_food(b.data@[i].key());
    assert(entry_error(old, user_id, b.key@, b.data@[i]) is Some);
}

/// Writing a valid bundle that names itself as a nested bundle fails with
/// `BundleDepRecursive` and changes nothing, whatever its other entries are.
pub proof fn law_bundle_self_reference(
    old: StoreView,
    new: StoreView,
    user_id: i64,
    b: Bundle,
    r: Result<(), StorageError>,
    k: int,
)
    requires
        b.is_valid(),
        set_bundle_outcome(old, new, user_id, b, r),
        0 <= k < b.data@.len(),
        b.data@[k] is Bundle,
        b.data@[k].key() == b.key@,
    ensures
        r == Err::<(), StorageError>(StorageError::BundleDepRecursive),
        new == old,
{
    assert(names_itself(b));
}

/// A bundle write that succeeds names neither the bundle itself nor a bundle from which a
/// chain of at most as many nestings as there are stored bundles leads back to it, so it
/// closes no cycle of nested bundles.
pub proof fn law_bundle_write_closes_no_cycle(
    old: StoreView,
    new: StoreView,
    user_id: i64,
    b: Bundle,
    r: Result<(), StorageError>,
)
    requires
        set_bundle_outcome(old, new, user_id, b, r),
        r is Ok,
    ensures
        forall|i: int|
            0 <= i < b.data@.len() && (#[trigger] b.data@[i] is Bundle) ==> b.data@[i].key() != b.key@
                && !leads_to(old, user_id, b.data@[i].key(), b.key@, old.bundle.len()),
{
    assert forall|i: int| 0 <= i < b.data@.len() && (#[trigger] b.data@[i] is Bundle) implies b.data@[i].key()
        != b.key@ && !leads_to(old, user_id, b.data@[i].key(), b.key@, old.bundle.len()) by {
        assert(entry_error(old, user_id, b.key@, b.data@[i]) is None);
    }
}

/// The summed weight of food `key` over every path through the first `n` entries of `d`:
/// a food entry adds its weight, a nested bundle adds its own total over all its paths.
pub open spec fn entries_amount(
    v: StoreView,
    user_id: i64,
    d: Seq<BundleEntry>,
    fuel: nat,
    n: nat,
    key: Seq<char>,
) -> int
    decreases n,
{
    if n == 0 || n > d.len() {
        0
    } else {
        entries_amount(v, user_id, d, fuel, (n - 1) as nat, key) + match d[n - 1] {
            BundleEntry::Food { key: k, weight } => if k@ == key {
                weight as int
            } else {
                0
            },
            BundleEntry::Bundle { key: c } => amount(path_stream(v, user_id, c@, fuel), key),
        }
    }
}

proof fn lemma_amount_concat(a: Seq<(Seq<char>, i64)>, b: Seq<(Seq<char>, i64)>, key: Seq<char>)
    ensures
        amount(a + b, key) == amount(a, key) + amount(b, key),
    decreases b.len(),
{
    if b.len() == 0 {
        assert(a + b =~= a);
    } else {
        lemma_amount_concat(a, b.drop_last(), key);
        assert((a + b).drop_last() =~= a + b.drop_last());
        assert((a + b).last() == b.last());
    }
}

proof fn lemma_entries_amount(v: StoreView, user_id: i64, d: Seq<BundleEntry>, fuel: nat, n: nat, key: Seq<char>)
    requires
        n <= d.len(),
    ensures
        amount(entries_stream(v, user_id, d, fuel, n), key) == entries_amount(v, user_id, d, fuel, n, key),
    decreases n,
{
    if n > 0 {
        lemma_entries_amount(v, user_id, d, fuel, (n - 1) as nat, key);
        let prev = entries_stream(v, user_id, d, fuel, (n - 1) as nat);
        match d[n - 1] {
            BundleEntry::Food { key: k, weight } => {
                let one = seq![(k@, weight)];
                assert(entries_stream(v, user_id, d, fuel, n) == prev + one);
                lemma_amount_concat(prev, one, key);
                assert(one.drop_last() =~= Seq::<(Seq<char>, i64)>::empty());
                assert(amount(one, key) == amount(one.drop_last(), key) + if k@ == key {
                    weight as int
                } else {
                    0
                });
            },
            BundleEntry::Bundle { key: c } => {
                assert(entries_stream(v, user_id, d, fuel, n) == prev + path_stream(
                    v,
                    user_id,
                    c@,
                    fuel,
                ));
                lemma_amount_concat(prev, path_stream(v, user_id, c@, fuel), key);
            },
        }
    }
}

/// The total of a food over every path from a bundle is additive over the bundle's entries:
/// each food entry adds its weight and each nested bundle adds its own total, so a bundle
/// nested under two parents counts once per parent, not once overall.
pub proof fn law_path_sums(v: StoreView, user_id: i64, key: Seq<char>, fuel: nat, food: Seq<char>)
    requires
        fuel > 0,
        v.has_bundle(user_id, key),
    ensures
        amount(path_stream(v, user_id, key, fuel), food) == entries_amount(
            v,
            user_id,
            bundle_data(v, user_id, key),
            (fuel - 1) as nat,
            bundle_data(v, user_id, key).len(),
            food,
        ),
{
    let d = bundle_data(v, user_id, key);
    lemma_entries_amount(v, user_id, d, (fuel - 1) as nat, d.len(), food);
}

/// Resolving a bundle gives each food the sum of its weights over every path of nested
/// bundles from the root: its weight in the root's own entries plus, for each nested bundle
/// entry, that bundle's total over all its paths.
pub proof fn law_resolution_sums(v: StoreView, user_id: i64, root: Seq<char>, t: Vec<(String, i64)>)
    requires
        resolved(v, user_id, root, Ok(t)),
    ensures
        forall|a: int|
            0 <= a < t@.len() ==> #[trigger] t@[a].1 == entries_amount(
                v,
                user_id,
                bundle_data(v, user_id, root),
                (v.bundle.len() - 1) as nat,
                bundle_data(v, user_id, root).len(),
                t@[a].0@,
            ),
{
    let fuel = v.bundle.len();
    assert(v.has_bundle(user_id, root) && fuel > 0) by {
        if !v.has_bundle(user_id, root) || fuel == 0 {
            assert(path_fault(v, user_id, root, fuel as nat) is Some);
        }
    }
    assert forall|a: int| 0 <= a < t@.len() implies #[trigger] t@[a].1 == entries_amount(
        v,
        user_id,
        bundle_data(v, user_id, root),
        (v.bundle.len() - 1) as nat,
        bundle_data(v, user_id, root).len(),
        t@[a].0@,
    ) by {
        law_path_sums(v, user_id, root, fuel as nat, t@[a].0@);
    }
}

/// Deleting a food that a bundle holds fails with `FoodIsUsed` and changes nothing; once no
/// bundle and no journal entry holds it, deleting it succeeds.
pub proof fn law_food_delete(old: StoreView, new: StoreView, key: Seq<char>, r: Result<(), StorageError>)
    requires
        old.wf(),
        delete_food_outcome(old, new, key, r),
    ensures
        old.food_in_bundle(key) ==> r == Err::<(), StorageError>(StorageError::FoodIsUsed) && new
            == old,
        !old.food_in_bundle(key) && !old.food_in_journal(key) ==> r is Ok && !new.has_food(key),
{
    if !old.food_in_bundle(key) && !old.food_in_journal(key) {
        if exists|i: int| 0 <= i < old.food.len() && (|f: Food| f.key@ == key)(#[trigger] old.food[i])
            && new.food == old.food.remove(i) {
            let i = choose|i: int|
                0 <= i < old.food.len() && (|f: Food| f.key@ == key)(#[trigger] old.food[i])
                    && new.food == old.food.remove(i);
            assert forall|j: int| 0 <= j < new.food.len() implies #[trigger] new.food[j].key@ != key by {
                if j < i {
                    assert(new.food[j] == old.food[j]);
                    assert(old.food[j].key@ != old.food[i].key@);
                } else {
                    assert(new.food[j] == old.food[j + 1]);
                    assert(old.food[i].key@ != old.food[j + 1].key@);
                }
            }
        }
    }
}

/// Deleting a sport that an activity record refers to fails with `SportIsUsedViolation`;
/// once no activity record refers to it, deleting it succeeds.
pub proof fn law_sport_delete(old: StoreView, new: StoreView, key: Seq<char>, r: Result<(), StorageError>)
    requires
        delete_sport_outcome(old, new, key, r),
    ensures
        old.sport_in_activity(key) ==> r == Err::<(), StorageError>(
            StorageError::SportIsUsedViolation,
        ) && new == old,
        !old.sport_in_activity(key) ==> r is Ok,
{
}

/// Restoring a snapshot of a store into an empty store gives back the snapshot's rows, so
/// every family holds the same rows as the original store.
pub proof fn law_backup_restore(s: StoreView, b: Backup, empty: StoreView)
    requires
        s.wf(),
        snapshot_of(b, s),
        empty.weight.len() == 0,
        empty.food.len() == 0,
        empty.user_settings.len() == 0,
        empty.bundle.len() == 0,
        empty.journal.len() == 0,
        empty.sport.len() == 0,
        empty.sport_activity.len() == 0,
    ensures
        restored(empty, b@) == b@,
        restored(empty, b@).weight.to_multiset() == s.weight.to_multiset(),
        restored(empty, b@).food.to_multiset() == s.food.to_multiset(),
        restored(empty, b@).user_settings.to_multiset() == s.user_settings.to_multiset(),
        restored(empty, b@).bundle.to_multiset() == s.bundle.to_multiset(),
        restored(empty, b@).journal.to_multiset() == s.journal.to_multiset(),
        restored(empty, b@).sport.to_multiset() == s.sport.to_multiset(),
        restored(empty, b@).sport_activity.to_multiset() == s.sport_activity.to_multiset(),
{
    let v = b@;
    lemma_key_relations(s);
    assert(empty.weight =~= Seq::empty());
    assert(empty.food =~= Seq::empty());
    assert(empty.user_settings =~= Seq::empty());
    assert(empty.bundle =~= Seq::empty());
    assert(empty.journal =~= Seq::empty());
    assert(empty.sport =~= Seq::empty());
    assert(empty.sport_activity =~= Seq::empty());
    lemma_reorder_unique(s.weight, v.weight, same_weight());
    lemma_reorder_unique(s.food, v.food, same_food());
    lemma_reorder_unique(s.user_settings, v.user_settings, same_settings());
    lemma_reorder_unique(s.bundle, v.bundle, same_bundle());
    lemma_reorder_unique(s.journal, v.journal, same_journal());
    lemma_reorder_unique(s.sport, v.sport, same_sport());
    lemma_reorder_unique(s.sport_activity, v.sport_activity, same_activity());
    lemma_upsert_all_into_empty(v.weight, same_weight());
    lemma_upsert_all_into_empty(v.food, same_food());
    lemma_upsert_all_into_empty(v.user_settings, same_settings());
    lemma_upsert_all_into_empty(v.bundle, same_bundle());
    lemma_upsert_all_into_empty(v.journal, same_journal());
    lemma_upsert_all_into_empty(v.sport, same_sport());
    lemma_upsert_all_into_empty(v.sport_activity, same_activity());
}

} // verus!
