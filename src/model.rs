use crate::order::text_eq;
use crate::search::{lower_of, lowercase};
use vstd::prelude::*;

verus! {

/// A food definition. Nutrient amounts are per 100 units of weight, in thousandths.
#[derive(Debug, PartialEq)]
pub struct Food {
    pub key: String,
    pub name: String,
    pub brand: String,
    pub cal100: i64,
    pub prot100: i64,
    pub fat100: i64,
    pub carb100: i64,
    pub comment: String,
}

impl Food {
    pub open spec fn is_valid(&self) -> bool {
        &&& self.key@.len() > 0
        &&& self.name@.len() > 0
        &&& self.cal100 >= 0
        &&& self.prot100 >= 0
        &&& self.fat100 >= 0
        &&& self.carb100 >= 0
    }

    pub fn validate(&self) -> (r: bool)
        ensures
            r == self.is_valid(),
    {
        self.key.unicode_len() > 0 && self.name.unicode_len() > 0 && self.cal100 >= 0
            && self.prot100 >= 0 && self.fat100 >= 0 && self.carb100 >= 0
    }
}

impl Clone for Food {
    fn clone(&self) -> (r: Food)
        ensures
            r == *self,
    {
        Food {
            key: self.key.clone(),
            name: self.name.clone(),
            brand: self.brand.clone(),
            cal100: self.cal100,
            prot100: self.prot100,
            fat100: self.fat100,
            carb100: self.carb100,
            comment: self.comment.clone(),
        }
    }
}

/// A body-weight sample; `value` is in thousandths.
#[derive(Debug, Clone, Copy, PartialEq, Eq, Structural)]
pub struct Weight {
    pub timestamp: i64,
    pub value: i64,
}

impl Weight {
    pub open spec fn is_valid(&self) -> bool {
        self.value > 0
    }

    pub fn validate(&self) -> (r: bool)
        ensures
            r == self.is_valid(),
    {
        self.value > 0
    }
}

/// One of the six daily meal slots, in the order of the day.
#[derive(Debug, Clone, Copy, PartialEq, Eq, Structural)]
pub enum Meal {
    Breakfast,
    FirstSnack,
    Dinner,
    SecondSnack,
    ThirdSnack,
    Supper,
}

/// The stored ordinal of each meal slot.
pub open spec fn meal_ordinal(m: Meal) -> u8 {
    match m {
        Meal::Breakfast => 0,
        Meal::FirstSnack => 1,
        Meal::Dinner => 2,
        Meal::SecondSnack => 3,
        Meal::ThirdSnack => 4,
        Meal::Supper => 5,
    }
}

impl Meal {
    /// The meal slot stored under ordinal `v`, if any.
    pub fn new(v: u8) -> (r: Option<Meal>)
        ensures
            v < 6 <==> r is Some,
            r matches Some(m) ==> meal_ordinal(m) == v,
    {
        match v {
            0 => Some(Meal::Breakfast),
            1 => Some(Meal::FirstSnack),
            2 => Some(Meal::Dinner),
            3 => Some(Meal::SecondSnack),
            4 => Some(Meal::ThirdSnack),
            5 => Some(Meal::Supper),
            _ => None,
        }
    }

    /// The meal slot whose display name is `s`, ignoring case.
    pub fn new_str(s: &str) -> (r: Option<Meal>)
        ensures
            r == meal_of_folded(lower_of(s@)),
    {
        meal_from_folded(lowercase(s).as_str())
    }

    pub fn to_u8(&self) -> (r: u8)
        ensures
            r == meal_ordinal(*self),
            r < 6,
    {
        match self {
            Meal::Breakfast => 0,
            Meal::FirstSnack => 1,
            Meal::Dinner => 2,
            Meal::SecondSnack => 3,
            Meal::ThirdSnack => 4,
            Meal::Supper => 5,
        }
    }

    /// The display name of the slot.
    pub fn name(&self) -> (r: String)
        ensures
            r@ == meal_name(*self),
    {
        match self {
            Meal::Breakfast => String::from_str("Завтрак"),
            Meal::FirstSnack => String::from_str("До обеда"),
            Meal::Dinner => String::from_str("Обед"),
            Meal::SecondSnack => String::from_str("Полдник"),
            Meal::ThirdSnack => String::from_str("До ужина"),
            Meal::Supper => String::from_str("Ужин"),
        }
    }
}

/// The meal slot whose display name, in lower case, is `folded`.
pub open spec fn meal_of_folded(folded: Seq<char>) -> Option<Meal> {
    if folded == "завтрак"@ {
        Some(Meal::Breakfast)
    } else if folded == "до обеда"@ {
        Some(Meal::FirstSnack)
    } else if folded == "обед"@ {
        Some(Meal::Dinner)
    } else if folded == "полдник"@ {
        Some(Meal::SecondSnack)
    } else if folded == "до ужина"@ {
        Some(Meal::ThirdSnack)
    } else if folded == "ужин"@ {
        Some(Meal::Supper)
    } else {
        None
    }
}

/// The meal slot named by the lower-case text `folded`, if any.
pub fn meal_from_folded(folded: &str) -> (r: Option<Meal>)
    ensures
        r == meal_of_folded(folded@),
{
    if text_eq(folded, "завтрак") {
        Some(Meal::Breakfast)
    } else if text_eq(folded, "до обеда") {
        Some(Meal::FirstSnack)
    } else if text_eq(folded, "обед") {
        Some(Meal::Dinner)
    } else if text_eq(folded, "полдник") {
        Some(Meal::SecondSnack)
    } else if text_eq(folded, "до ужина") {
        Some(Meal::ThirdSnack)
    } else if text_eq(folded, "ужин") {
        Some(Meal::Supper)
    } else {
        None
    }
}

/// The display name of each meal slot.
pub open spec fn meal_name(m: Meal) -> Seq<char> {
    match m {
        Meal::Breakfast => "Завтрак"@,
        Meal::FirstSnack => "До обеда"@,
        Meal::Dinner => "Обед"@,
        Meal::SecondSnack => "Полдник"@,
        Meal::ThirdSnack => "До ужина"@,
        Meal::Supper => "Ужин"@,
    }
}

/// A journal entry: `food_weight` of food `food_key` eaten at a meal, in thousandths.
#[derive(Debug, PartialEq)]
pub struct Journal {
    pub timestamp: i64,
    pub meal: Meal,
    pub food_key: String,
    pub food_weight: i64,
}

impl Journal {
    pub open spec fn is_valid(&self) -> bool {
        self.food_key@.len() > 0 && self.food_weight > 0
    }

    pub fn validate(&self) -> (r: bool)
        ensures
            r == self.is_valid(),
    {
        self.food_key.unicode_len() > 0 && self.food_weight > 0
    }
}

/// Per-user settings; `cal_limit` is in thousandths.
#[derive(Debug, Clone, Copy, PartialEq, Eq, Structural)]
pub struct UserSettings {
    pub cal_limit: i64,
}

impl UserSettings {
    pub open spec fn is_valid(&self) -> bool {
        self.cal_limit > 0
    }

    pub fn validate(&self) -> (r: bool)
        ensures
            r == self.is_valid(),
    {
        self.cal_limit > 0
    }
}

/// One member of a bundle: a food with its weight (thousandths), or a nested bundle.
#[derive(Debug, PartialEq)]
pub enum BundleEntry {
    Food { key: String, weight: i64 },
    Bundle { key: String },
}

impl BundleEntry {
    pub open spec fn key(&self) -> Seq<char> {
        match self {
            BundleEntry::Food { key, .. } => key@,
            BundleEntry::Bundle { key } => key@,
        }
    }

    pub fn key_str(&self) -> (r: &str)
        ensures
            r@ == self.key(),
    {
        match self {
            BundleEntry::Food { key, .. } => key.as_str(),
            BundleEntry::Bundle { key } => key.as_str(),
        }
    }
}

impl Clone for BundleEntry {
    fn clone(&self) -> (r: BundleEntry)
        ensures
            r == *self,
    {
        match self {
            BundleEntry::Food { key, weight } => BundleEntry::Food {
                key: key.clone(),
                weight: *weight,
            },
            BundleEntry::Bundle { key } => BundleEntry::Bundle { key: key.clone() },
        }
    }
}

/// Clones a list of bundle entries exactly.
pub fn clone_entries(v: &Vec<BundleEntry>) -> (r: Vec<BundleEntry>)
    ensures
        r@ == v@,
{
    let mut r: Vec<BundleEntry> = Vec::new();
    let mut i: usize = 0;
    while i < v.len()
        invariant
            i <= v.len(),
            r@ == v@.take(i as int),
        decreases v.len() - i,
    {
        r.push(v[i].clone());
        proof {
            assert(v@.take(i + 1) =~= v@.take(i as int).push(v@[i as int]));
        }
        i = i + 1;
    }
    proof {
        assert(v@.take(v.len() as int) =~= v@);
    }
    r
}

/// Clones a list of integers exactly.
pub fn clone_sets(v: &Vec<i64>) -> (r: Vec<i64>)
    ensures
        r@ == v@,
{
    let mut r: Vec<i64> = Vec::new();
    let mut i: usize = 0;
    while i < v.len()
        invariant
            i <= v.len(),
            r@ == v@.take(i as int),
        decreases v.len() - i,
    {
        r.push(v[i]);
        proof {
            assert(v@.take(i + 1) =~= v@.take(i as int).push(v@[i as int]));
        }
        i = i + 1;
    }
    proof {
        assert(v@.take(v.len() as int) =~= v@);
    }
    r
}

/// A named group of foods and nested bundles, journaled as a whole.
#[derive(Debug, PartialEq)]
pub struct Bundle {
    pub key: String,
    pub data: Vec<BundleEntry>,
}

impl View for Bundle {
    type V = (Seq<char>, Seq<BundleEntry>);

    open spec fn view(&self) -> (Seq<char>, Seq<BundleEntry>) {
        (self.key@, self.data@)
    }
}

/// The entries name pairwise different keys.
pub open spec fn entry_keys_distinct(d: Seq<BundleEntry>) -> bool {
    forall|i: int, j: int| 0 <= i < j < d.len() ==> #[trigger] d[i].key() != #[trigger] d[j].key()
}

impl Bundle {
    pub open spec fn is_valid(&self) -> bool {
        &&& self.key@.len() > 0
        &&& self.data@.len() > 0
        &&& forall|i: int|
            0 <= i < self.data@.len() ==> match #[trigger] self.data@[i] {
                BundleEntry::Food { weight, .. } => weight > 0,
                BundleEntry::Bundle { .. } => true,
            }
        &&& entry_keys_distinct(self.data@)
    }

    pub fn validate(&self) -> (r: bool)
        ensures
            r == self.is_valid(),
    {
        if self.key.unicode_len() == 0 || self.data.len() == 0 {
            return false;
        }
        let n = self.data.len();
        let mut i: usize = 0;
        while i < n
            invariant
                n == self.data@.len(),
                i <= n,
                forall|a: int|
                    0 <= a < i ==> match #[trigger] self.data@[a] {
                        BundleEntry::Food { weight, .. } => weight > 0,
                        BundleEntry::Bundle { .. } => true,
                    },
                forall|a: int, b: int|
                    0 <= a < b < n && a < i ==> #[trigger] self.data@[a].key()
                        != #[trigger] self.data@[b].key(),
            decreases n - i,
        {
            if let BundleEntry::Food { weight, .. } = &self.data[i] {
                if *weight <= 0 {
                    return false;
                }
            }
            let mut j: usize = i + 1;
            while j < n
                invariant
                    n == self.data@.len(),
                    i < n,
                    i < j <= n,
                    forall|b: int| i < b < j ==> self.data@[i as int].key() != #[trigger] self.data@[b].key(),
                decreases n - j,
            {
                if text_eq(self.data[i].key_str(), self.data[j].key_str()) {
                    return false;
                }
                j = j + 1;
            }
            i = i + 1;
        }
        true
    }
}

/// A sport definition.
#[derive(Debug, PartialEq)]
pub struct Sport {
    pub key: String,
    pub name: String,
    pub comment: String,
}

impl Sport {
    pub open spec fn is_valid(&self) -> bool {
        self.key@.len() > 0 && self.name@.len() > 0
    }

    pub fn validate(&self) -> (r: bool)
        ensures
            r == self.is_valid(),
    {
        self.key.unicode_len() > 0 && self.name.unicode_len() > 0
    }
}

impl Clone for Sport {
    fn clone(&self) -> (r: Sport)
        ensures
            r == *self,
    {
        Sport { key: self.key.clone(), name: self.name.clone(), comment: self.comment.clone() }
    }
}

/// One sport activity record: the repetition counts of its sets.
#[derive(Debug, PartialEq)]
pub struct SportActivity {
    pub sport_key: String,
    pub timestamp: i64,
    pub sets: Vec<i64>,
}

impl SportActivity {
    pub open spec fn is_valid(&self) -> bool {
        self.sport_key@.len() > 0 && self.sets@.len() > 0
    }

    pub fn validate(&self) -> (r: bool)
        ensures
            r == self.is_valid(),
    {
        self.sport_key.unicode_len() > 0 && self.sets.len() > 0
    }
}

/// A row of the sport activity report.
#[derive(Debug, PartialEq)]
pub struct SportActivityReport {
    pub sport_name: String,
    pub timestamp: i64,
    pub sets: Vec<i64>,
}

impl View for SportActivityReport {
    type V = (Seq<char>, i64, Seq<i64>);

    open spec fn view(&self) -> (Seq<char>, i64, Seq<i64>) {
        (self.sport_name@, self.timestamp, self.sets@)
    }
}

/// A row of the journal report; nutrient figures are scaled to the eaten weight, in thousandths.
#[derive(Debug, PartialEq)]
pub struct JournalReport {
    pub timestamp: i64,
    pub meal: Meal,
    pub food_key: String,
    pub food_name: String,
    pub food_brand: String,
    pub food_weight: i64,
    pub cal: i128,
    pub prot: i128,
    pub fat: i128,
    pub carb: i128,
}

} // verus!
