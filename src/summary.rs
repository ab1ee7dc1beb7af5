use crate::model::{JournalReport, Meal};
use vstd::prelude::*;

verus! {

/// The nutrient figures (energy, protein, fat, carbohydrate) of one report row.
pub open spec fn nutrients(r: JournalReport) -> (int, int, int, int) {
    (r.cal as int, r.prot as int, r.fat as int, r.carb as int)
}

pub open spec fn add4(a: (int, int, int, int), b: (int, int, int, int)) -> (int, int, int, int) {
    (a.0 + b.0, a.1 + b.1, a.2 + b.2, a.3 + b.3)
}

/// The summed nutrient figures of `rows`.
pub open spec fn sum_rows(rows: Seq<JournalReport>) -> (int, int, int, int)
    decreases rows.len(),
{
    if rows.len() == 0 {
        (0, 0, 0, 0)
    } else {
        add4(sum_rows(rows.drop_last()), nutrients(rows.last()))
    }
}

/// The runs of consecutive rows of one meal slot, each as (slot, row count, summed figures).
pub open spec fn meal_runs(rows: Seq<JournalReport>) -> Seq<(Meal, nat, (int, int, int, int))>
    decreases rows.len(),
{
    if rows.len() == 0 {
        Seq::empty()
    } else {
        let g = meal_runs(rows.drop_last());
        let r = rows.last();
        if rows.len() > 1 && rows[rows.len() - 2].meal == r.meal {
            g.update(g.len() - 1, (r.meal, g.last().1 + 1, add4(g.last().2, nutrients(r))))
        } else {
            g.push((r.meal, 1nat, nutrients(r)))
        }
    }
}

pub open spec fn fits(t: (int, int, int, int)) -> bool {
    &&& i128::MIN <= t.0 <= i128::MAX
    &&& i128::MIN <= t.1 <= i128::MAX
    &&& i128::MIN <= t.2 <= i128::MAX
    &&& i128::MIN <= t.3 <= i128::MAX
}

/// Every running total met while summing `rows` in order, of the day and of the current
/// meal run, fits the figures' type.
pub open spec fn totals_fit(rows: Seq<JournalReport>) -> bool {
    forall|k: int|
        0 < k <= rows.len() ==> fits(#[trigger] sum_rows(rows.take(k))) && fits(
            meal_runs(rows.take(k)).last().2,
        )
}

/// The summed figures of one run of rows of a meal slot.
pub struct MealTotals {
    pub meal: Meal,
    pub rows: usize,
    pub cal: i128,
    pub prot: i128,
    pub fat: i128,
    pub carb: i128,
}

impl View for MealTotals {
    type V = (Meal, nat, (int, int, int, int));

    open spec fn view(&self) -> (Meal, nat, (int, int, int, int)) {
        (
            self.meal,
            self.rows as nat,
            (self.cal as int, self.prot as int, self.fat as int, self.carb as int),
        )
    }
}

/// The figures of a day's report: per run of one meal slot, and for the whole day.
pub struct DayTotals {
    pub meals: Vec<MealTotals>,
    pub cal: i128,
    pub prot: i128,
    pub fat: i128,
    pub carb: i128,
}

fn add_checked(a: (i128, i128, i128, i128), r: &JournalReport) -> (o: Option<(i128, i128, i128, i128)>)
    ensures
        o is Some <==> fits(add4((a.0 as int, a.1 as int, a.2 as int, a.3 as int), nutrients(*r))),
        o matches Some(t) ==> (t.0 as int, t.1 as int, t.2 as int, t.3 as int) == add4(
            (a.0 as int, a.1 as int, a.2 as int, a.3 as int),
            nutrients(*r),
        ),
{
    let c = a.0.checked_add(r.cal)?;
    let p = a.1.checked_add(r.prot)?;
    let f = a.2.checked_add(r.fat)?;
    let h = a.3.checked_add(r.carb)?;
    Some((c, p, f, h))
}

/// Sums the figures of report rows `rows`, for the day and for each run of consecutive rows
/// of one meal slot; none when a running total does not fit.
pub fn day_totals(rows: &Vec<JournalReport>) -> (r: Option<DayTotals>)
    ensures
        r is Some <==> totals_fit(rows@),
        r matches Some(t) ==> t.meals@.map_values(|m: MealTotals| m@) == meal_runs(rows@) && (
        t.cal as int,
        t.prot as int,
        t.fat as int,
        t.carb as int,
        ) == sum_rows(rows@),
{
    let mut meals: Vec<MealTotals> = Vec::new();
    let mut total: (i128, i128, i128, i128) = (0, 0, 0, 0);
    let mut i: usize = 0;
    assert(rows@.take(0) =~= Seq::<JournalReport>::empty());
    while i < rows.len()
        invariant
            i <= rows@.len(),
            meals@.map_values(|m: MealTotals| m@) == meal_runs(rows@.take(i as int)),
            (total.0 as int, total.1 as int, total.2 as int, total.3 as int) == sum_rows(
                rows@.take(i as int),
            ),
            totals_fit(rows@.take(i as int)),
            i > 0 ==> meals@.len() > 0 && meals@.last().meal == rows@[i - 1].meal
                && meals@.last().rows <= i,
        decreases rows.len() - i,
    {
        let r = &rows[i];
        let ghost prev = rows@.take(i as int);
        let ghost next = rows@.take(i + 1);
        proof {
            assert(next.drop_last() =~= prev);
            assert(next.last() == *r);
            if i > 0 {
                assert(next[next.len() - 2] == rows@[i - 1]);
            }
        }
        let t = match add_checked(total, r) {
            Some(t) => t,
            None => {
                proof {
                    assert(!fits(sum_rows(next)));
                    assert(!totals_fit(rows@)) by {
                        assert(rows@.take(i + 1) == next);
                    }
                }
                return None;
            },
        };
        total = t;
        let ghost before = meals@.map_values(|m: MealTotals| m@);
        if i > 0 && meals[meals.len() - 1].meal == r.meal {
            let last = meals.len() - 1;
            let g = (meals[last].cal, meals[last].prot, meals[last].fat, meals[last].carb);
            let n = meals[last].rows;
            proof {
                assert(before.last() == meals@[last as int]@);
                assert(meal_runs(next) == before.update(
                    before.len() - 1,
                    (r.meal, before.last().1 + 1, add4(before.last().2, nutrients(*r))),
                ));
            }
            match add_checked(g, r) {
                Some(s) => {
                    meals.set(
                        last,
                        MealTotals {
                            meal: r.meal,
                            rows: n + 1,
                            cal: s.0,
                            prot: s.1,
                            fat: s.2,
                            carb: s.3,
                        },
                    );
                    proof {
                        assert(meals@.map_values(|m: MealTotals| m@) =~= meal_runs(next));
                        assert(fits(meal_runs(next).last().2));
                    }
                },
                None => {
                    proof {
                        assert(!fits(meal_runs(next).last().2));
                        assert(rows@.take(i + 1) == next);
                        assert(sum_rows(rows@.take(i + 1)) == sum_rows(next));
                    }
                    return None;
                },
            }
        } else {
            meals.push(
                MealTotals {
                    meal: r.meal,
                    rows: 1,
                    cal: r.cal,
                    prot: r.prot,
                    fat: r.fat,
                    carb: r.carb,
                },
            );
            proof {
                assert(meal_runs(next) == before.push((r.meal, 1nat, nutrients(*r))));
                assert(meals@.map_values(|m: MealTotals| m@) =~= meal_runs(next));
                assert(fits(meal_runs(next).last().2));
            }
        }
        proof {
            assert(fits(sum_rows(next)));
            assert(fits(meal_runs(next).last().2));
            assert forall|k: int| 0 < k <= next.len() implies fits(#[trigger] sum_rows(next.take(k)))
                && fits(meal_runs(next.take(k)).last().2) by {
                if k <= prev.len() {
                    assert(next.take(k) =~= prev.take(k));
                } else {
                    assert(next.take(k) =~= next);
                }
            }
        }
        i = i + 1;
    }
    proof {
        assert(rows@.take(rows@.len() as int) =~= rows@);
    }
    Some(DayTotals { meals, cal: total.0, prot: total.1, fat: total.2, carb: total.3 })
}

} // verus!
