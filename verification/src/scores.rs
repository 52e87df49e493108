//! Per-category score distributions.
//!
//! A score is a fixed-point fraction in millionths of 1 (`SCORE_SCALE`), one
//! per category.  Construction from raw, possibly non-normalized input always
//! re-normalizes: each value is divided by the total so that the eight fields
//! sum to one whole, within the rounding slack of integer division.  When the
//! raw total is zero the denominator is taken as one whole instead, leaving
//! the values unchanged rather than dividing by zero.

use vstd::prelude::*;
use vstd::arithmetic::div_mod::{
    lemma_fundamental_div_mod, lemma_div_is_ordered, lemma_div_multiples_vanish,
};
use crate::category::{CategoryKey, category_at, category_index, spec_key_str};
use crate::category::str_eq;

verus! {

/// One whole, in score units: scores are stored in millionths.
pub const SCORE_SCALE: u64 = 1000000;

/// A score for every category, in millionths of 1.
#[derive(Clone, Copy, Debug, PartialEq, Eq, Structural)]
pub struct Scores {
    pub screenshot_document: u64,
    pub people: u64,
    pub food_cafe: u64,
    pub nature_landscape: u64,
    pub city_street_travel: u64,
    pub pets_animals: u64,
    pub products_objects: u64,
    pub other: u64,
}

impl Scores {
    /// The score of the category at canonical position `i`.
    pub open spec fn value_at(self, i: int) -> u64 {
        if i == 0 {
            self.screenshot_document
        } else if i == 1 {
            self.people
        } else if i == 2 {
            self.food_cafe
        } else if i == 3 {
            self.nature_landscape
        } else if i == 4 {
            self.city_street_travel
        } else if i == 5 {
            self.pets_animals
        } else if i == 6 {
            self.products_objects
        } else {
            self.other
        }
    }

    /// The total of all eight scores.
    pub open spec fn sum(self) -> int {
        self.screenshot_document + self.people + self.food_cafe + self.nature_landscape
            + self.city_street_travel + self.pets_animals + self.products_objects + self.other
    }

    /// What normalization produces: every value divided by the raw total,
    /// expressed in score units; a zero total leaves the values unchanged.
    pub open spec fn normalized(self) -> Scores {
        if self.sum() <= 0 {
            self
        } else {
            let t = self.sum();
            Scores {
                screenshot_document: (self.screenshot_document * SCORE_SCALE / t) as u64,
                people: (self.people * SCORE_SCALE / t) as u64,
                food_cafe: (self.food_cafe * SCORE_SCALE / t) as u64,
                nature_landscape: (self.nature_landscape * SCORE_SCALE / t) as u64,
                city_street_travel: (self.city_street_travel * SCORE_SCALE / t) as u64,
                pets_animals: (self.pets_animals * SCORE_SCALE / t) as u64,
                products_objects: (self.products_objects * SCORE_SCALE / t) as u64,
                other: (self.other * SCORE_SCALE / t) as u64,
            }
        }
    }

    /// All zero scores, the starting point for construction from a mapping.
    pub fn zero() -> (r: Scores)
        ensures
            r.sum() == 0,
            forall|i: int| 0 <= i < 8 ==> r.value_at(i) == 0,
    {
        Scores {
            screenshot_document: 0,
            people: 0,
            food_cafe: 0,
            nature_landscape: 0,
            city_street_travel: 0,
            pets_animals: 0,
            products_objects: 0,
            other: 0,
        }
    }

    /// The eight scores in canonical category order.
    pub fn values(&self) -> (r: Vec<u64>)
        ensures
            r@.len() == 8,
            forall|i: int| 0 <= i < 8 ==> #[trigger] r@[i] == self.value_at(i),
    {
        let mut v: Vec<u64> = Vec::new();
        v.push(self.screenshot_document);
        v.push(self.people);
        v.push(self.food_cafe);
        v.push(self.nature_landscape);
        v.push(self.city_street_travel);
        v.push(self.pets_animals);
        v.push(self.products_objects);
        v.push(self.other);
        v
    }

    /// Divides every score by the raw total so the fields describe fractions
    /// of one whole; a zero total is treated as a denominator of one whole,
    /// which leaves the scores as they are.
    pub fn normalize(self) -> (r: Scores)
        ensures
            r == self.normalized(),
    {
        let total: u128 = self.screenshot_document as u128 + self.people as u128
            + self.food_cafe as u128 + self.nature_landscape as u128
            + self.city_street_travel as u128 + self.pets_animals as u128
            + self.products_objects as u128 + self.other as u128;
        if total == 0 {
            self
        } else {
            proof {
                lemma_scaled_div_fits(self.screenshot_document as int, self.sum());
                lemma_scaled_div_fits(self.people as int, self.sum());
                lemma_scaled_div_fits(self.food_cafe as int, self.sum());
                lemma_scaled_div_fits(self.nature_landscape as int, self.sum());
                lemma_scaled_div_fits(self.city_street_travel as int, self.sum());
                lemma_scaled_div_fits(self.pets_animals as int, self.sum());
                lemma_scaled_div_fits(self.products_objects as int, self.sum());
                lemma_scaled_div_fits(self.other as int, self.sum());
            }
            Scores {
                screenshot_document: (self.screenshot_document as u128 * SCORE_SCALE as u128
                    / total) as u64,
                people: (self.people as u128 * SCORE_SCALE as u128 / total) as u64,
                food_cafe: (self.food_cafe as u128 * SCORE_SCALE as u128 / total) as u64,
                nature_landscape: (self.nature_landscape as u128 * SCORE_SCALE as u128
                    / total) as u64,
                city_street_travel: (self.city_street_travel as u128 * SCORE_SCALE as u128
                    / total) as u64,
                pets_animals: (self.pets_animals as u128 * SCORE_SCALE as u128 / total) as u64,
                products_objects: (self.products_objects as u128 * SCORE_SCALE as u128
                    / total) as u64,
                other: (self.other as u128 * SCORE_SCALE as u128 / total) as u64,
            }
        }
    }

    /// The canonical position holding the greatest score, scanning onward
    /// from `i` with `best` the best position seen so far.
    pub open spec fn spec_top_index_from(self, i: int, best: int) -> int
        decreases 8 - i,
    {
        if i < 0 || i >= 8 {
            best
        } else if self.value_at(i) > self.value_at(best) {
            self.spec_top_index_from(i + 1, i)
        } else {
            self.spec_top_index_from(i + 1, best)
        }
    }

    /// The canonical position of the greatest score; exact ties go to the
    /// earliest position.
    pub open spec fn spec_top_index(self) -> int {
        self.spec_top_index_from(1, 0)
    }

    /// The category with the greatest score, together with that score; exact
    /// ties go to the earliest category in canonical order.
    pub fn top(&self) -> (r: (CategoryKey, u64))
        ensures
            0 <= category_index(r.0) < 8,
            category_index(r.0) == self.spec_top_index(),
            r.1 == self.value_at(category_index(r.0)),
            forall|j: int| 0 <= j < 8 ==> self.value_at(j) <= r.1,
            forall|j: int| 0 <= j < category_index(r.0) ==> self.value_at(j) < r.1,
    {
        let vals = self.values();
        let mut best_i: usize = 0;
        let mut best_v: u64 = vals[0];
        let mut i: usize = 1;
        while i < 8
            invariant
                vals@.len() == 8,
                forall|k: int| 0 <= k < 8 ==> #[trigger] vals@[k] == self.value_at(k),
                1 <= i <= 8,
                best_i < i,
                best_v == self.value_at(best_i as int),
                self.spec_top_index() == self.spec_top_index_from(i as int, best_i as int),
                forall|j: int| 0 <= j < i ==> self.value_at(j) <= best_v,
                forall|j: int| 0 <= j < best_i ==> self.value_at(j) < best_v,
            decreases 8 - i,
        {
            if vals[i] > best_v {
                best_i = i;
                best_v = vals[i];
            }
            i += 1;
        }
        (CategoryKey::from_index(best_i), best_v)
    }

    /// The storage representation: machine key and score for every category,
    /// in canonical order.
    pub fn to_map(&self) -> (r: Vec<(String, u64)>)
        ensures
            r@.len() == 8,
            forall|i: int| 0 <= i < 8 ==> #[trigger] r@[i].0@ == spec_key_str(category_at(i)),
            forall|i: int| 0 <= i < 8 ==> #[trigger] r@[i].1 == self.value_at(i),
    {
        let mut v: Vec<(String, u64)> = Vec::new();
        v.push(("screenshot_document".to_owned(), self.screenshot_document));
        v.push(("people".to_owned(), self.people));
        v.push(("food_cafe".to_owned(), self.food_cafe));
        v.push(("nature_landscape".to_owned(), self.nature_landscape));
        v.push(("city_street_travel".to_owned(), self.city_street_travel));
        v.push(("pets_animals".to_owned(), self.pets_animals));
        v.push(("products_objects".to_owned(), self.products_objects));
        v.push(("other".to_owned(), self.other));
        v
    }

    /// Rebuilds scores from a stored mapping: for each category the last
    /// entry bearing its machine key wins, missing keys count as zero, and
    /// the result is re-normalized.
    pub fn from_map(entries: &Vec<(String, u64)>) -> (r: Scores)
        ensures
            r == scores_of_entries(entries@).normalized(),
    {
        let raw = Scores {
            screenshot_document: lookup(entries, "screenshot_document"),
            people: lookup(entries, "people"),
            food_cafe: lookup(entries, "food_cafe"),
            nature_landscape: lookup(entries, "nature_landscape"),
            city_street_travel: lookup(entries, "city_street_travel"),
            pets_animals: lookup(entries, "pets_animals"),
            products_objects: lookup(entries, "products_objects"),
            other: lookup(entries, "other"),
        };
        raw.normalize()
    }
}

/// The value the last entry with the given key carries, or zero if none does.
pub open spec fn spec_lookup(entries: Seq<(String, u64)>, key: Seq<char>) -> u64
    decreases entries.len(),
{
    if entries.len() == 0 {
        0
    } else if entries.last().0@ == key {
        entries.last().1
    } else {
        spec_lookup(entries.drop_last(), key)
    }
}

/// The raw scores a stored mapping describes, before re-normalization.
pub open spec fn scores_of_entries(entries: Seq<(String, u64)>) -> Scores {
    Scores {
        screenshot_document: spec_lookup(entries, spec_key_str(CategoryKey::ScreenshotDocument)),
        people: spec_lookup(entries, spec_key_str(CategoryKey::People)),
        food_cafe: spec_lookup(entries, spec_key_str(CategoryKey::FoodCafe)),
        nature_landscape: spec_lookup(entries, spec_key_str(CategoryKey::NatureLandscape)),
        city_street_travel: spec_lookup(entries, spec_key_str(CategoryKey::CityStreetTravel)),
        pets_animals: spec_lookup(entries, spec_key_str(CategoryKey::PetsAnimals)),
        products_objects: spec_lookup(entries, spec_key_str(CategoryKey::ProductsObjects)),
        other: spec_lookup(entries, spec_key_str(CategoryKey::Other)),
    }
}

/// Finds the value of the last entry with the given key, scanning backward.
fn lookup(entries: &Vec<(String, u64)>, key: &str) -> (r: u64)
    ensures
        r == spec_lookup(entries@, key@),
{
    proof {
        assert(entries@.take(entries@.len() as int) =~= entries@);
    }
    let mut i: usize = entries.len();
    while i > 0
        invariant
            i <= entries@.len(),
            spec_lookup(entries@, key@) == spec_lookup(entries@.take(i as int), key@),
        decreases i,
    {
        i -= 1;
        let hit = str_eq(entries[i].0.as_str(), key);
        proof {
            assert(entries@.take(i + 1).last() == entries@[i as int]);
            assert(entries@.take(i + 1).drop_last() =~= entries@.take(i as int));
        }
        if hit {
            return entries[i].1;
        }
    }
    proof {
        assert(entries@.take(0).len() == 0);
    }
    0
}

/// A value no greater than the total, scaled into score units and divided by
/// that total, stays within one whole.
proof fn lemma_scaled_div_fits(v: int, t: int)
    requires
        0 <= v <= t,
        0 < t,
    ensures
        0 <= v * SCORE_SCALE / t <= SCORE_SCALE,
{
    assert(v * SCORE_SCALE <= t * SCORE_SCALE) by (nonlinear_arith)
        requires 0 <= v <= t;
    lemma_div_is_ordered(v * SCORE_SCALE, t * SCORE_SCALE, t);
    lemma_div_multiples_vanish(SCORE_SCALE as int, t);
    assert(v * SCORE_SCALE >= 0) by (nonlinear_arith)
        requires 0 <= v;
    vstd::arithmetic::div_mod::lemma_div_pos_is_pos(v * SCORE_SCALE, t);
}

/// Normalization law: scores re-normalized from any raw input with a
/// positive total sum to one whole, up to the rounding slack of the eight
/// integer divisions (strictly less than eight millionths).
pub proof fn lemma_normalized_sum(s: Scores)
    requires
        s.sum() > 0,
    ensures
        SCORE_SCALE - 8 < s.normalized().sum() <= SCORE_SCALE,
{
    let t = s.sum();
    let scale = SCORE_SCALE as int;
    let v0 = s.screenshot_document as int;
    let v1 = s.people as int;
    let v2 = s.food_cafe as int;
    let v3 = s.nature_landscape as int;
    let v4 = s.city_street_travel as int;
    let v5 = s.pets_animals as int;
    let v6 = s.products_objects as int;
    let v7 = s.other as int;
    lemma_scaled_div_fits(v0, t);
    lemma_scaled_div_fits(v1, t);
    lemma_scaled_div_fits(v2, t);
    lemma_scaled_div_fits(v3, t);
    lemma_scaled_div_fits(v4, t);
    lemma_scaled_div_fits(v5, t);
    lemma_scaled_div_fits(v6, t);
    lemma_scaled_div_fits(v7, t);
    let q0 = v0 * scale / t;
    let q1 = v1 * scale / t;
    let q2 = v2 * scale / t;
    let q3 = v3 * scale / t;
    let q4 = v4 * scale / t;
    let q5 = v5 * scale / t;
    let q6 = v6 * scale / t;
    let q7 = v7 * scale / t;
    lemma_fundamental_div_mod(v0 * scale, t);
    lemma_fundamental_div_mod(v1 * scale, t);
    lemma_fundamental_div_mod(v2 * scale, t);
    lemma_fundamental_div_mod(v3 * scale, t);
    lemma_fundamental_div_mod(v4 * scale, t);
    lemma_fundamental_div_mod(v5 * scale, t);
    lemma_fundamental_div_mod(v6 * scale, t);
    lemma_fundamental_div_mod(v7 * scale, t);
    let r0 = (v0 * scale) % t;
    let r1 = (v1 * scale) % t;
    let r2 = (v2 * scale) % t;
    let r3 = (v3 * scale) % t;
    let r4 = (v4 * scale) % t;
    let r5 = (v5 * scale) % t;
    let r6 = (v6 * scale) % t;
    let r7 = (v7 * scale) % t;
    vstd::arithmetic::div_mod::lemma_mod_division_less_than_divisor(v0 * scale, t);
    vstd::arithmetic::div_mod::lemma_mod_division_less_than_divisor(v1 * scale, t);
    vstd::arithmetic::div_mod::lemma_mod_division_less_than_divisor(v2 * scale, t);
    vstd::arithmetic::div_mod::lemma_mod_division_less_than_divisor(v3 * scale, t);
    vstd::arithmetic::div_mod::lemma_mod_division_less_than_divisor(v4 * scale, t);
    vstd::arithmetic::div_mod::lemma_mod_division_less_than_divisor(v5 * scale, t);
    vstd::arithmetic::div_mod::lemma_mod_division_less_than_divisor(v6 * scale, t);
    vstd::arithmetic::div_mod::lemma_mod_division_less_than_divisor(v7 * scale, t);
    let qsum = q0 + q1 + q2 + q3 + q4 + q5 + q6 + q7;
    let rsum = r0 + r1 + r2 + r3 + r4 + r5 + r6 + r7;
    assert((v0 + v1 + v2 + v3 + v4 + v5 + v6 + v7) * scale
        == v0 * scale + v1 * scale + v2 * scale + v3 * scale + v4 * scale + v5 * scale
            + v6 * scale + v7 * scale) by (nonlinear_arith);
    assert(t * (q0 + q1 + q2 + q3 + q4 + q5 + q6 + q7) == t * q0 + t * q1 + t * q2 + t * q3 + t
        * q4 + t * q5 + t * q6 + t * q7) by (nonlinear_arith);
    assert(t * qsum == t * scale - rsum);
    assert(t * scale - 8 * t < t * qsum <= t * scale);
    assert(qsum > scale - 8) by (nonlinear_arith)
        requires t > 0, t * qsum > t * scale - 8 * t;
    assert(qsum <= scale) by (nonlinear_arith)
        requires t > 0, t * qsum <= t * scale;
    assert(s.normalized().sum() == qsum);
}

/// Reading the entry list over a prefix only: when no entry at or past `n`
/// bears the key, the lookup over the whole list equals the lookup over the
/// first `n` entries.
proof fn lemma_lookup_prefix(entries: Seq<(String, u64)>, key: Seq<char>, n: int)
    requires
        0 <= n <= entries.len(),
        forall|j: int| n <= j < entries.len() ==> (#[trigger] entries[j].0)@ != key,
    ensures
        spec_lookup(entries, key) == spec_lookup(entries.take(n), key),
    decreases entries.len() - n,
{
    if n == entries.len() {
        assert(entries.take(n) =~= entries);
    } else {
        lemma_lookup_prefix(entries, key, n + 1);
        assert(entries.take(n + 1).last() == entries[n]);
        assert(entries.take(n + 1).drop_last() =~= entries.take(n));
    }
}

/// The eight machine keys are pairwise distinct.
proof fn lemma_keys_distinct()
    ensures
        forall|i: int, j: int|
            0 <= i < 8 && 0 <= j < 8 && i != j ==> spec_key_str(category_at(i)) != spec_key_str(
                category_at(j),
            ),
{
    reveal_strlit("screenshot_document");
    reveal_strlit("people");
    reveal_strlit("food_cafe");
    reveal_strlit("nature_landscape");
    reveal_strlit("city_street_travel");
    reveal_strlit("pets_animals");
    reveal_strlit("products_objects");
    reveal_strlit("other");
    assert("screenshot_document"@.len() == 19);
    assert("people"@.len() == 6);
    assert("food_cafe"@.len() == 9);
    assert("nature_landscape"@.len() == 16);
    assert("city_street_travel"@.len() == 18);
    assert("pets_animals"@.len() == 12);
    assert("products_objects"@.len() == 16);
    assert("other"@.len() == 5);
    assert("nature_landscape"@[0] == 'n');
    assert("products_objects"@[0] == 'p');
}

/// A canonical entry list, as `to_map` writes it, decodes back to the very
/// scores it was written from.
proof fn lemma_entries_decode(s: Scores, entries: Seq<(String, u64)>)
    requires
        entries.len() == 8,
        forall|i: int| 0 <= i < 8 ==> (#[trigger] entries[i].0)@ == spec_key_str(category_at(i)),
        forall|i: int| 0 <= i < 8 ==> (#[trigger] entries[i].1) == s.value_at(i),
    ensures
        scores_of_entries(entries) == s,
{
    lemma_keys_distinct();
    lemma_lookup_prefix(entries, spec_key_str(category_at(0)), 1);
    lemma_lookup_prefix(entries, spec_key_str(category_at(1)), 2);
    lemma_lookup_prefix(entries, spec_key_str(category_at(2)), 3);
    lemma_lookup_prefix(entries, spec_key_str(category_at(3)), 4);
    lemma_lookup_prefix(entries, spec_key_str(category_at(4)), 5);
    lemma_lookup_prefix(entries, spec_key_str(category_at(5)), 6);
    lemma_lookup_prefix(entries, spec_key_str(category_at(6)), 7);
    lemma_lookup_prefix(entries, spec_key_str(category_at(7)), 8);
    assert(entries.take(1).last() == entries[0]);
    assert(entries.take(2).last() == entries[1]);
    assert(entries.take(3).last() == entries[2]);
    assert(entries.take(4).last() == entries[3]);
    assert(entries.take(5).last() == entries[4]);
    assert(entries.take(6).last() == entries[5]);
    assert(entries.take(7).last() == entries[6]);
    assert(entries.take(8).last() == entries[7]);
    assert(scores_of_entries(entries).value_at(0) == s.value_at(0));
    assert(scores_of_entries(entries).value_at(1) == s.value_at(1));
    assert(scores_of_entries(entries).value_at(2) == s.value_at(2));
    assert(scores_of_entries(entries).value_at(3) == s.value_at(3));
    assert(scores_of_entries(entries).value_at(4) == s.value_at(4));
    assert(scores_of_entries(entries).value_at(5) == s.value_at(5));
    assert(scores_of_entries(entries).value_at(6) == s.value_at(6));
    assert(scores_of_entries(entries).value_at(7) == s.value_at(7));
}

/// Rescaling a value by one whole over a total close to one whole moves it by
/// less than the tolerance: it never shrinks and grows by at most seven
/// millionths.
proof fn lemma_rescale_close(v: int, t: int)
    requires
        0 <= v <= t,
        SCORE_SCALE - 8 < t <= SCORE_SCALE,
    ensures
        v <= v * SCORE_SCALE / t <= v + 7,
{
    let scale = SCORE_SCALE as int;
    assert(t * v <= v * scale) by (nonlinear_arith)
        requires 0 <= v, 0 < t <= scale;
    lemma_div_is_ordered(t * v, v * scale, t);
    lemma_div_multiples_vanish(v, t);
    assert(v * scale <= t * (v + 7)) by (nonlinear_arith)
        requires 0 <= v <= t, 0 < t, scale - t <= 7;
    lemma_div_is_ordered(v * scale, t * (v + 7), t);
    lemma_div_multiples_vanish(v + 7, t);
}

/// Round-trip law: writing normalized scores out as the storage mapping and
/// reading the mapping back (which re-normalizes) reproduces every field
/// within the tolerance of the fixed-point encoding — no field shrinks and
/// none grows by more than seven millionths.
pub proof fn lemma_scores_round_trip(s: Scores, entries: Seq<(String, u64)>)
    requires
        SCORE_SCALE - 8 < s.sum() <= SCORE_SCALE,
        entries.len() == 8,
        forall|i: int| 0 <= i < 8 ==> (#[trigger] entries[i].0)@ == spec_key_str(category_at(i)),
        forall|i: int| 0 <= i < 8 ==> (#[trigger] entries[i].1) == s.value_at(i),
    ensures
        forall|i: int|
            0 <= i < 8 ==> s.value_at(i) <= #[trigger] scores_of_entries(
                entries,
            ).normalized().value_at(i) <= s.value_at(i) + 7,
{
    lemma_entries_decode(s, entries);
    let t = s.sum();
    assert forall|i: int| 0 <= i < 8 implies s.value_at(i)
        <= #[trigger] scores_of_entries(entries).normalized().value_at(i) <= s.value_at(i)
        + 7 by {
        assert(s.value_at(i) <= t);
        lemma_rescale_close(s.value_at(i) as int, t);
        assert(s.normalized().value_at(i) == (s.value_at(i) * SCORE_SCALE / t) as u64);
    }
}

} // verus!
