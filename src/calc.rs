use crate::order::text_eq;
use vstd::prelude::*;

verus! {

/// `x / d` rounded toward zero, for a positive `d`.
pub open spec fn trunc_div(x: int, d: int) -> int {
    if x >= 0 {
        x / d
    } else {
        -((-x) / d)
    }
}

/// The activity factors, in thousandths, from sitting to very active.
pub open spec fn activity_factor(i: int) -> int {
    if i == 0 {
        1200
    } else if i == 1 {
        1375
    } else if i == 2 {
        1550
    } else if i == 3 {
        1725
    } else {
        1900
    }
}

/// Four thousand times the basal metabolic rate, in kcal, of a person of the given weight
/// (kg), height (cm) and age (years), each in thousandths: `10 w + 6.25 h - 5 a + 5` for a
/// man, `- 161` in place of `+ 5` for a woman.
pub open spec fn basal_scaled(male: bool, weight: i64, height: i64, age: i64) -> int {
    40 * weight + 25 * height - 20 * age + if male {
        20000int
    } else {
        -644000int
    }
}

fn trunc_div_exec(x: i128, d: i128) -> (r: i128)
    requires
        d > 0,
        x > i128::MIN,
    ensures
        r == trunc_div(x as int, d as int),
{
    if x >= 0 {
        x / d
    } else {
        -((-x) / d)
    }
}

/// The basal metabolic rate and the daily calorie norm of each activity level, in whole kcal
/// rounded toward zero, for gender `m` or `f`; none for another gender or a value not above 0.
pub fn calorie_norms(gender: &str, weight: i64, height: i64, age: i64) -> (r: Option<(i128, Vec<i128>)>)
    ensures
        r is Some <==> (gender@ == "m"@ || gender@ == "f"@) && weight > 0 && height > 0 && age > 0,
        r matches Some((basal, norms)) ==> {
            let x = basal_scaled(gender@ == "m"@, weight, height, age);
            &&& basal == trunc_div(x, 4000)
            &&& norms@.len() == 5
            &&& forall|i: int| 0 <= i < 5 ==> #[trigger] norms@[i] == trunc_div(x * activity_factor(i), 4000000)
        },
{
    let male = text_eq(gender, "m");
    if !male && !text_eq(gender, "f") {
        return None;
    }
    if weight <= 0 || height <= 0 || age <= 0 {
        return None;
    }
    let c: i128 = if male {
        20000
    } else {
        -644000
    };
    let x: i128 = 40 * (weight as i128) + 25 * (height as i128) - 20 * (age as i128) + c;
    assert(-0x100_0000_0000_0000_0000 <= x <= 0x100_0000_0000_0000_0000);
    let basal = trunc_div_exec(x, 4000);
    let factors: [i128; 5] = [1200, 1375, 1550, 1725, 1900];
    let mut norms: Vec<i128> = Vec::new();
    let mut i: usize = 0;
    while i < 5
        invariant
            i <= 5,
            norms@.len() == i,
            x == basal_scaled(male, weight, height, age),
            -0x100_0000_0000_0000_0000 <= x <= 0x100_0000_0000_0000_0000,
            0 < weight && 0 < height && 0 < age,
            factors@ == seq![1200i128, 1375, 1550, 1725, 1900],
            forall|j: int| 0 <= j < i ==> #[trigger] norms@[j] == trunc_div(x * activity_factor(j), 4000000),
        decreases 5 - i,
    {
        let k = factors[i];
        assert(k == activity_factor(i as int));
        assert(-0x1_0000_0000_0000_0000_0000_0000 <= x * k <= 0x1_0000_0000_0000_0000_0000_0000) by (nonlinear_arith)
            requires
                -0x100_0000_0000_0000_0000 <= x <= 0x100_0000_0000_0000_0000,
                0 < k <= 1900,
        ;
        norms.push(trunc_div_exec(x * k, 4000000));
        i = i + 1;
    }
    Some((basal, norms))
}

} // verus!
